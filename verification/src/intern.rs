//! Interning: every distinct value is stored once, in a private arena, and
//! equal values are answered with the same handle.

use crate::arena::{utf8_text, Arena, Span};
use crate::layout::{lemma_round_up_bounds, round_up};
use crate::plain::{lemma_image_injective, lemma_splice, lemma_splice_disjoint, Plain};
use core::marker::PhantomData;
use vstd::prelude::*;
use vstd::string::StringSliceAdditionalSpecFns;

verus! {

/// What a pool is: the distinct byte images it holds, in the order in which
/// they came, the address of each, and the state of its arena.
pub struct PoolState {
    pub images: Seq<Seq<u8>>,
    pub addresses: Seq<nat>,
    pub occupied: nat,
    pub capacity: nat,
    pub generation: nat,
}

impl PoolState {
    /// Every image has an address, the images lie one after the other in the
    /// taken part of the arena, and no image occurs twice.
    pub open spec fn wf(self) -> bool {
        &&& self.images.len() == self.addresses.len()
        &&& self.occupied <= self.capacity
        &&& forall|i: int|
            0 <= i < self.images.len() ==> #[trigger] self.addresses[i] + self.images[i].len()
                <= self.occupied
        &&& forall|i: int, j: int|
            0 <= i < j < self.images.len() ==> #[trigger] self.addresses[i] + self.images[i].len()
                <= #[trigger] self.addresses[j]
        &&& forall|i: int, j: int|
            0 <= i < j < self.images.len() ==> #[trigger] self.images[i]
                != #[trigger] self.images[j]
    }

    /// Where `image` is held, if it is.
    pub open spec fn position(self, image: Seq<u8>) -> Option<int> {
        if self.images.contains(image) {
            Some(self.images.index_of(image))
        } else {
            None
        }
    }

    /// Whether a new image of `len` bytes, aligned to `align`, still fits.
    pub open spec fn fits(self, align: nat, len: nat) -> bool {
        round_up(self.occupied, align) + len <= self.capacity
    }

    /// The pool with `image` stored behind everything it holds.
    pub open spec fn insert(self, align: nat, image: Seq<u8>) -> PoolState {
        PoolState {
            images: self.images.push(image),
            addresses: self.addresses.push(round_up(self.occupied, align)),
            occupied: round_up(self.occupied, align) + image.len(),
            ..self
        }
    }

    /// The pool after `image` was interned: unchanged when the image is
    /// already held or does not fit, and with the image stored otherwise.
    pub open spec fn intern(self, align: nat, image: Seq<u8>) -> PoolState {
        if self.position(image) is None && self.fits(align, image.len()) {
            self.insert(align, image)
        } else {
            self
        }
    }

    /// The handle that interning `image` is answered with: that of the held
    /// copy, or that of the new copy if there is room for one.
    pub open spec fn handle(self, align: nat, image: Seq<u8>) -> Option<Span> {
        match self.position(image) {
            Some(i) => Some(
                Span { address: self.addresses[i], len: image.len(), generation: self.generation },
            ),
            None => if self.fits(align, image.len()) {
                Some(
                    Span {
                        address: round_up(self.occupied, align),
                        len: image.len(),
                        generation: self.generation,
                    },
                )
            } else {
                None
            },
        }
    }

    /// The pool after a reset: it holds nothing, and a new generation begins.
    pub open spec fn reset(self) -> PoolState {
        PoolState {
            images: Seq::empty(),
            addresses: Seq::empty(),
            occupied: 0,
            generation: self.generation + 1,
            ..self
        }
    }

    /// A handle is valid while its generation is the current one and its
    /// address lies within the arena.
    pub open spec fn is_valid(self, span: Span) -> bool {
        span.generation == self.generation && span.address < self.capacity
    }

    /// Whether `span` is the handle of one of the images held.
    pub open spec fn has(self, span: Span) -> bool {
        span.generation == self.generation && exists|i: int|
            0 <= i < self.images.len() && #[trigger] self.addresses[i] == span.address
                && self.images[i].len() == span.len
    }

    /// The image that a handle of this pool stands for.
    pub open spec fn image_of(self, span: Span) -> Seq<u8> {
        let i = choose|i: int|
            0 <= i < self.images.len() && #[trigger] self.addresses[i] == span.address
                && self.images[i].len() == span.len;
        self.images[i]
    }
}

/// A cheap, non-owning reference to an interned value: the address and the
/// length in bytes of its stored copy, and the generation of the pool at the
/// time it was handed out.
pub struct Intern<T> {
    address: usize,
    len: usize,
    generation: u64,
    marker: PhantomData<T>,
}

impl<T> View for Intern<T> {
    type V = Span;

    closed spec fn view(&self) -> Span {
        Span {
            address: self.address as nat,
            len: self.len as nat,
            generation: self.generation as nat,
        }
    }
}

impl<T> Intern<T> {
    /// Offset of the stored copy from the start of the pool's arena.
    pub fn address(&self) -> (address: usize)
        ensures
            address == self@.address,
    {
        self.address
    }

    /// Length of the stored copy, in bytes.
    pub fn len(&self) -> (len: usize)
        ensures
            len == self@.len,
    {
        self.len
    }

    /// Generation of the pool at the time the handle was handed out.
    pub fn generation(&self) -> (generation: u64)
        ensures
            generation == self@.generation,
    {
        self.generation
    }

    /// Whether two handles refer to the same stored copy.
    pub fn same(&self, other: &Intern<T>) -> (same: bool)
        ensures
            same == (self@ == other@),
    {
        self.address == other.address && self.len == other.len && self.generation
            == other.generation
    }
}

/// Where a stored image lies in the pool's arena.
struct Entry {
    address: usize,
    len: usize,
}

/// Whether two byte strings are the same: the lengths are compared first,
/// and the bytes only when the lengths agree.
pub fn same_bytes(a: &[u8], b: &[u8]) -> (same: bool)
    ensures
        same == (a@ == b@),
{
    if a.len() != b.len() {
        return false;
    }
    let n = a.len();
    let mut k: usize = 0;
    while k < n
        invariant
            k <= n,
            n == a.len(),
            n == b.len(),
            a@.take(k as int) == b@.take(k as int),
        decreases n - k,
    {
        if a[k] != b[k] {
            return false;
        }
        assert(a@.take(k + 1) =~= a@.take(k as int).push(a@[k as int]));
        assert(b@.take(k + 1) =~= b@.take(k as int).push(b@[k as int]));
        k = k + 1;
    }
    assert(a@.take(n as int) =~= a@);
    assert(b@.take(n as int) =~= b@);
    true
}

/// A deduplicating table of byte images, stored in an arena of its own.
pub struct BytePool {
    arena: Arena,
    lookup: Vec<Entry>,
}

impl View for BytePool {
    type V = PoolState;

    closed spec fn view(&self) -> PoolState {
        PoolState {
            images: Seq::new(
                self.lookup@.len(),
                |i: int|
                    self.arena@.bytes.subrange(
                        self.lookup@[i].address as int,
                        self.lookup@[i].address + self.lookup@[i].len,
                    ),
            ),
            addresses: Seq::new(self.lookup@.len(), |i: int| self.lookup@[i].address as nat),
            occupied: self.arena@.occupied,
            capacity: self.arena@.capacity(),
            generation: self.arena@.generation,
        }
    }
}

impl BytePool {
    /// The arena is sound, every entry lies in its taken part, and the model
    /// of the pool is well formed.
    pub closed spec fn wf(&self) -> bool {
        &&& self.arena@.wf()
        &&& forall|i: int|
            0 <= i < self.lookup@.len() ==> (#[trigger] self.lookup@[i]).address
                + self.lookup@[i].len <= self.arena@.occupied
        &&& self@.wf()
    }

    /// A well-formed pool has a well-formed model.
    pub proof fn lemma_wf(&self)
        requires
            self.wf(),
        ensures
            self@.wf(),
    {
    }

    /// An empty pool over an arena of `size` bytes.
    pub fn new(size: usize) -> (pool: BytePool)
        ensures
            pool.wf(),
            pool@ == (PoolState {
                images: Seq::empty(),
                addresses: Seq::empty(),
                occupied: 0,
                capacity: size as nat,
                generation: 0,
            }),
    {
        let pool = BytePool { arena: Arena::new(size), lookup: Vec::new() };
        assert(pool@.images =~= Seq::empty());
        assert(pool@.addresses =~= Seq::empty());
        pool
    }

    /// Number of distinct images held.
    pub fn len(&self) -> (len: usize)
        ensures
            len == self@.images.len(),
    {
        self.lookup.len()
    }

    pub fn is_empty(&self) -> (empty: bool)
        ensures
            empty == (self@.images.len() == 0),
    {
        self.lookup.len() == 0
    }

    /// Bytes of the arena taken so far.
    pub fn occupied(&self) -> (occupied: usize)
        ensures
            occupied == self@.occupied,
    {
        self.arena.occupied()
    }

    /// Capacity of the arena, in bytes.
    pub fn size(&self) -> (size: usize)
        ensures
            size == self@.capacity,
    {
        self.arena.size()
    }

    /// Number of resets so far.
    pub fn generation(&self) -> (generation: u64)
        ensures
            generation == self@.generation,
    {
        self.arena.generation()
    }

    /// Whether `handle` was handed out in the current generation and points
    /// into the arena.
    pub fn is_valid<T>(&self, handle: &Intern<T>) -> (valid: bool)
        ensures
            valid == self@.is_valid(handle@),
    {
        handle.generation == self.arena.generation() && handle.address < self.arena.size()
    }
}

impl BytePool {
    /// Looks for `image` among the images held, in the order in which they
    /// came.
    pub fn find(&self, image: &[u8]) -> (found: Option<usize>)
        requires
            self.wf(),
        ensures
            match found {
                Some(i) => self@.position(image@) == Some(i as int),
                None => self@.position(image@) is None,
            },
    {
        let n = self.lookup.len();
        let mut i: usize = 0;
        while i < n
            invariant
                i <= n,
                n == self.lookup@.len(),
                self.wf(),
                forall|j: int| 0 <= j < i ==> #[trigger] self@.images[j] != image@,
            decreases n - i,
        {
            let address = self.lookup[i].address;
            let len = self.lookup[i].len;
            assert(self@.images[i as int] == self.arena@.bytes.subrange(
                address as int,
                address + len,
            ));
            if len == image.len() {
                let stored = self.arena.range(address, len);
                if same_bytes(stored, image) {
                    proof {
                        lemma_position(self@, image@, i as int);
                    }
                    return Some(i);
                }
            } else {
                assert(self@.images[i as int].len() != image@.len());
            }
            i = i + 1;
        }
        None
    }

    /// Interns `image`: answers with the handle of the copy already held, or
    /// stores a copy at the next multiple of `align` and answers with its
    /// handle. Fails, and changes nothing, when a new copy does not fit.
    pub fn intern(&mut self, image: &[u8], align: usize) -> (handle: Option<Intern<u8>>)
        requires
            old(self).wf(),
            align > 0,
        ensures
            final(self).wf(),
            final(self)@ == old(self)@.intern(align as nat, image@),
            match handle {
                Some(h) => {
                    &&& old(self)@.handle(align as nat, image@) == Some(h@)
                    &&& final(self)@.has(h@)
                    &&& final(self)@.image_of(h@) == image@
                },
                None => old(self)@.handle(align as nat, image@) is None,
            },
    {
        proof {
            if old(self)@.handle(align as nat, image@) is Some {
                lemma_interned(old(self)@, align as nat, image@);
            }
        }
        match self.find(image) {
            Some(i) => {
                return Some(
                    Intern {
                        address: self.lookup[i].address,
                        len: self.lookup[i].len,
                        generation: self.arena.generation(),
                        marker: PhantomData,
                    },
                );
            },
            None => {},
        }
        let ghost before = *self;
        proof {
            lemma_round_up_bounds(self@.occupied, align as nat);
        }
        match self.arena.push_aligned(image, align) {
            Some(slice) => {
                let address = slice.address();
                self.lookup.push(Entry { address, len: image.len() });
                proof {
                    let n = before.lookup@.len() as int;
                    assert(self.arena@.occupied == address + image@.len());
                    lemma_splice(before.arena@.bytes, address as int, image@);
                    assert forall|i: int| 0 <= i < n implies #[trigger] self@.images[i]
                        == before@.images[i] by {
                        assert(self.lookup@[i] == before.lookup@[i]);
                        assert(before.lookup@[i].address + before.lookup@[i].len
                            <= before.arena@.occupied);
                        lemma_splice_disjoint(
                            before.arena@.bytes,
                            address as int,
                            image@,
                            before.lookup@[i].address as int,
                            before.lookup@[i].address + before.lookup@[i].len,
                        );
                    }
                    assert(self@.images[n] == image@);
                    assert(self@.images =~= before@.images.push(image@));
                    assert(self@.addresses =~= before@.addresses.push(address as nat));
                    assert(self@ == before@.insert(align as nat, image@));
                    assert forall|i: int| 0 <= i < n implies #[trigger] before@.images[i]
                        != image@ by {
                        if before@.images[i] == image@ {
                            assert(before@.images.contains(image@));
                        }
                    }
                    lemma_intern_wf(before@, align as nat, image@);
                    assert forall|i: int| 0 <= i < self.lookup@.len() implies (
                    #[trigger] self.lookup@[i]).address + self.lookup@[i].len
                        <= self.arena@.occupied by {
                        if i < n {
                            assert(self.lookup@[i] == before.lookup@[i]);
                        }
                    }
                }
                Some(
                    Intern {
                        address,
                        len: image.len(),
                        generation: self.arena.generation(),
                        marker: PhantomData,
                    },
                )
            },
            None => None,
        }
    }

    /// Forgets every image at once, resets the arena and starts a new
    /// generation.
    pub fn clear(&mut self)
        requires
            old(self).wf(),
            old(self)@.generation < u64::MAX,
        ensures
            final(self).wf(),
            final(self)@ == old(self)@.reset(),
    {
        self.lookup.clear();
        self.arena.clear();
        assert(self@.images =~= Seq::empty());
        assert(self@.addresses =~= Seq::empty());
    }

    /// Whether `handle` is the handle of one of the images held: the
    /// condition under which the image may be read.
    pub fn has<T>(&self, handle: &Intern<T>) -> (held: bool)
        requires
            self.wf(),
        ensures
            held == self@.has(handle@),
    {
        if handle.generation != self.arena.generation() {
            return false;
        }
        let mut i: usize = 0;
        while i < self.lookup.len()
            invariant
                i <= self.lookup@.len(),
                self.wf(),
                handle@.generation == self@.generation,
                forall|j: int|
                    0 <= j < i ==> !(#[trigger] self@.addresses[j] == handle@.address
                        && self@.images[j].len() == handle@.len),
            decreases self.lookup@.len() - i,
        {
            assert(self.lookup@[i as int].address + self.lookup@[i as int].len
                <= self.arena@.occupied);
            if self.lookup[i].address == handle.address && self.lookup[i].len == handle.len {
                assert(self@.addresses[i as int] == handle@.address);
                return true;
            }
            i = i + 1;
        }
        false
    }

    /// The image that `handle` stands for.
    pub fn bytes<T>(&self, handle: &Intern<T>) -> (bytes: &[u8])
        requires
            self.wf(),
            self@.has(handle@),
        ensures
            bytes@ == self@.image_of(handle@),
    {
        proof {
            let state = self@;
            let span = handle@;
            let i = choose|i: int|
                0 <= i < state.images.len() && #[trigger] state.addresses[i] == span.address
                    && state.images[i].len() == span.len;
            assert(self.lookup@[i].address + self.lookup@[i].len <= self.arena@.occupied);
            assert(state.images[i] == self.arena@.bytes.subrange(
                self.lookup@[i].address as int,
                self.lookup@[i].address + self.lookup@[i].len,
            ));
        }
        self.arena.range(handle.address, handle.len)
    }
}

impl PoolState {
    /// Whether every image held is the image of a value of `T`.
    pub open spec fn typed<T: Plain>(self) -> bool {
        forall|i: int| 0 <= i < self.images.len() ==> T::decode(#[trigger] self.images[i]) is Some
    }

    /// The values that the images stand for, in the order in which they came.
    pub open spec fn values<T: Plain>(self) -> Seq<T> {
        Seq::new(self.images.len(), |i: int| T::decode(self.images[i]).unwrap())
    }

    /// Whether every image held is valid UTF-8.
    pub open spec fn textual(self) -> bool {
        forall|i: int|
            0 <= i < self.images.len() ==> vstd::utf8::valid_utf8(#[trigger] self.images[i])
    }
}

/// A deduplicating table of values of one plain type.
pub struct ValuePool<T: Plain> {
    pool: BytePool,
    marker: PhantomData<T>,
}

impl<T: Plain> View for ValuePool<T> {
    type V = PoolState;

    closed spec fn view(&self) -> PoolState {
        self.pool@
    }
}

impl<T: Plain> ValuePool<T> {
    /// The table is sound and holds nothing but images of values of `T`.
    pub closed spec fn wf(&self) -> bool {
        self.pool.wf() && self.pool@.typed::<T>()
    }

    /// A well-formed pool has a well-formed model, all of whose images are
    /// images of values.
    pub proof fn lemma_wf(&self)
        requires
            self.wf(),
        ensures
            self@.wf(),
            self@.typed::<T>(),
    {
    }

    /// An empty pool over an arena of `size` bytes.
    pub fn new(size: usize) -> (pool: ValuePool<T>)
        ensures
            pool.wf(),
            pool@ == (PoolState {
                images: Seq::empty(),
                addresses: Seq::empty(),
                occupied: 0,
                capacity: size as nat,
                generation: 0,
            }),
    {
        ValuePool { pool: BytePool::new(size), marker: PhantomData }
    }

    /// Interns `value`: answers with the handle of the equal value already
    /// held, or stores a copy and answers with its handle. Fails, and
    /// changes nothing, when a new copy does not fit.
    pub fn intern(&mut self, value: &T) -> (handle: Option<Intern<T>>)
        requires
            old(self).wf(),
        ensures
            final(self).wf(),
            final(self)@ == old(self)@.intern(T::spec_align(), value.image()),
            match handle {
                Some(h) => {
                    &&& old(self)@.handle(T::spec_align(), value.image()) == Some(h@)
                    &&& final(self)@.has(h@)
                    &&& final(self)@.image_of(h@) == value.image()
                },
                None => old(self)@.handle(T::spec_align(), value.image()) is None,
            },
    {
        let mut image: Vec<u8> = vec![0u8; T::size()];
        proof {
            value.lemma_image_len();
            value.lemma_decode_image();
        }
        value.store(&mut image, 0);
        assert(image@ =~= value.image());
        match self.pool.intern(image.as_slice(), T::align()) {
            Some(found) => Some(
                Intern {
                    address: found.address,
                    len: found.len,
                    generation: found.generation,
                    marker: PhantomData,
                },
            ),
            None => None,
        }
    }

    /// Forgets every value at once and starts a new generation.
    pub fn clear(&mut self)
        requires
            old(self).wf(),
            old(self)@.generation < u64::MAX,
        ensures
            final(self).wf(),
            final(self)@ == old(self)@.reset(),
    {
        self.pool.clear();
    }

    /// Number of distinct values held.
    pub fn len(&self) -> (len: usize)
        ensures
            len == self@.images.len(),
    {
        self.pool.len()
    }

    pub fn is_empty(&self) -> (empty: bool)
        ensures
            empty == (self@.images.len() == 0),
    {
        self.pool.is_empty()
    }

    /// Bytes of the arena taken so far.
    pub fn occupied(&self) -> (occupied: usize)
        ensures
            occupied == self@.occupied,
    {
        self.pool.occupied()
    }

    /// Whether `handle` was handed out in the current generation and points
    /// into the arena.
    pub fn is_valid(&self, handle: &Intern<T>) -> (valid: bool)
        ensures
            valid == self@.is_valid(handle@),
    {
        self.pool.is_valid(handle)
    }

    /// Whether `handle` is the handle of one of the values held: the
    /// condition under which the value may be read.
    pub fn has(&self, handle: &Intern<T>) -> (held: bool)
        requires
            self.wf(),
        ensures
            held == self@.has(handle@),
    {
        self.pool.has(handle)
    }

    /// The value that `handle` stands for.
    pub fn get(&self, handle: &Intern<T>) -> (value: T)
        requires
            self.wf(),
            self@.has(handle@),
        ensures
            T::decode(self@.image_of(handle@)) == Some(value),
            value.image() == self@.image_of(handle@),
    {
        let bytes = self.pool.bytes(handle);
        proof {
            let image = self@.image_of(handle@);
            T::lemma_decode_some(image);
            T::decode(image).unwrap().lemma_image_len();
            assert(bytes@.subrange(0, 0 + T::spec_size() as int) =~= bytes@);
        }
        T::load(bytes, 0).unwrap()
    }
}

/// A deduplicating table of UTF-8 texts.
pub struct StrPool {
    pool: BytePool,
}

impl View for StrPool {
    type V = PoolState;

    closed spec fn view(&self) -> PoolState {
        self.pool@
    }
}

impl StrPool {
    /// The table is sound and holds nothing but valid UTF-8.
    pub closed spec fn wf(&self) -> bool {
        self.pool.wf() && self.pool@.textual()
    }

    /// A well-formed pool has a well-formed model, all of whose images are
    /// valid UTF-8.
    pub proof fn lemma_wf(&self)
        requires
            self.wf(),
        ensures
            self@.wf(),
            self@.textual(),
    {
    }

    /// An empty pool over an arena of `size` bytes.
    pub fn new(size: usize) -> (pool: StrPool)
        ensures
            pool.wf(),
            pool@ == (PoolState {
                images: Seq::empty(),
                addresses: Seq::empty(),
                occupied: 0,
                capacity: size as nat,
                generation: 0,
            }),
    {
        StrPool { pool: BytePool::new(size) }
    }

    /// Interns `value`: answers with the handle of the equal text already
    /// held, or stores a copy of its bytes and answers with its handle.
    /// Fails, and changes nothing, when a new copy does not fit.
    pub fn intern(&mut self, value: &str) -> (handle: Option<Intern<u8>>)
        requires
            old(self).wf(),
        ensures
            final(self).wf(),
            final(self)@ == old(self)@.intern(1, value.spec_bytes()),
            match handle {
                Some(h) => {
                    &&& old(self)@.handle(1, value.spec_bytes()) == Some(h@)
                    &&& final(self)@.has(h@)
                    &&& final(self)@.image_of(h@) == value.spec_bytes()
                },
                None => old(self)@.handle(1, value.spec_bytes()) is None,
            },
    {
        proof {
            vstd::utf8::encode_utf8_valid_utf8(value@);
        }
        self.pool.intern(value.as_bytes(), 1)
    }

    /// Forgets every text at once and starts a new generation.
    pub fn clear(&mut self)
        requires
            old(self).wf(),
            old(self)@.generation < u64::MAX,
        ensures
            final(self).wf(),
            final(self)@ == old(self)@.reset(),
    {
        self.pool.clear();
    }

    /// Number of distinct texts held.
    pub fn len(&self) -> (len: usize)
        ensures
            len == self@.images.len(),
    {
        self.pool.len()
    }

    pub fn is_empty(&self) -> (empty: bool)
        ensures
            empty == (self@.images.len() == 0),
    {
        self.pool.is_empty()
    }

    /// Bytes of the arena taken so far.
    pub fn occupied(&self) -> (occupied: usize)
        ensures
            occupied == self@.occupied,
    {
        self.pool.occupied()
    }

    /// Whether `handle` was handed out in the current generation and points
    /// into the arena.
    pub fn is_valid(&self, handle: &Intern<u8>) -> (valid: bool)
        ensures
            valid == self@.is_valid(handle@),
    {
        self.pool.is_valid(handle)
    }

    /// Whether `handle` is the handle of one of the texts held: the
    /// condition under which the text may be read.
    pub fn has(&self, handle: &Intern<u8>) -> (held: bool)
        requires
            self.wf(),
        ensures
            held == self@.has(handle@),
    {
        self.pool.has(handle)
    }

    /// The text that `handle` stands for.
    pub fn get(&self, handle: &Intern<u8>) -> (text: &str)
        requires
            self.wf(),
            self@.has(handle@),
        ensures
            text.spec_bytes() == self@.image_of(handle@),
    {
        utf8_text(self.pool.bytes(handle)).unwrap()
    }
}

/// In a well-formed pool an image is held at one place only: the place
/// where it is found is its position.
pub proof fn lemma_position(state: PoolState, image: Seq<u8>, i: int)
    requires
        state.wf(),
        0 <= i < state.images.len(),
        state.images[i] == image,
    ensures
        state.position(image) == Some(i),
{
    assert(state.images.contains(image));
    let k = state.images.index_of(image);
    if k < i {
        assert(state.images[k] != state.images[i]);
    } else if i < k {
        assert(state.images[i] != state.images[k]);
    }
}

/// Interning keeps a pool well formed.
pub proof fn lemma_intern_wf(state: PoolState, align: nat, image: Seq<u8>)
    requires
        state.wf(),
        align > 0,
    ensures
        state.intern(align, image).wf(),
{
    if state.position(image) is None && state.fits(align, image.len()) {
        let after = state.insert(align, image);
        let n = state.images.len() as int;
        lemma_round_up_bounds(state.occupied, align);
        assert forall|i: int| 0 <= i < after.images.len() implies #[trigger] after.addresses[i]
            + after.images[i].len() <= after.occupied by {
            if i < n {
                assert(state.addresses[i] + state.images[i].len() <= state.occupied);
            }
        }
        assert forall|i: int, j: int| 0 <= i < j < after.images.len() implies
            #[trigger] after.addresses[i] + after.images[i].len()
            <= #[trigger] after.addresses[j] by {
            if j < n {
                assert(state.addresses[i] + state.images[i].len() <= state.addresses[j]);
            } else {
                assert(state.addresses[i] + state.images[i].len() <= state.occupied);
            }
        }
        assert forall|i: int, j: int| 0 <= i < j < after.images.len() implies
            #[trigger] after.images[i] != #[trigger] after.images[j] by {
            if j < n {
                assert(state.images[i] != state.images[j]);
            } else if state.images[i] == image {
                assert(state.images.contains(image));
            }
        }
    }
}

/// Interning a value that was interned before is answered with the very
/// same handle, and changes nothing.
pub proof fn lemma_intern_again(state: PoolState, align: nat, image: Seq<u8>)
    requires
        state.wf(),
        align > 0,
        state.handle(align, image) is Some,
    ensures
        state.intern(align, image).handle(align, image) == state.handle(align, image),
        state.intern(align, image).intern(align, image) == state.intern(align, image),
{
    if state.position(image) is None {
        let after = state.insert(align, image);
        lemma_intern_wf(state, align, image);
        lemma_position(after, image, state.images.len() as int);
    }
}

/// A handle stands for one image only: the images held at the same address
/// with the same length are the same image.
pub proof fn lemma_image_of(state: PoolState, i: int)
    requires
        state.wf(),
        0 <= i < state.images.len(),
    ensures
        state.has(
            Span {
                address: state.addresses[i],
                len: state.images[i].len(),
                generation: state.generation,
            },
        ),
        state.image_of(
            Span {
                address: state.addresses[i],
                len: state.images[i].len(),
                generation: state.generation,
            },
        ) == state.images[i],
{
    let span = Span {
        address: state.addresses[i],
        len: state.images[i].len(),
        generation: state.generation,
    };
    let k = choose|k: int|
        0 <= k < state.images.len() && #[trigger] state.addresses[k] == span.address
            && state.images[k].len() == span.len;
    if k < i {
        assert(state.addresses[k] + state.images[k].len() <= state.addresses[i]);
        assert(state.images[k] =~= state.images[i]);
        assert(state.images[k] != state.images[i]);
    } else if i < k {
        assert(state.addresses[i] + state.images[i].len() <= state.addresses[k]);
        assert(state.images[i] =~= state.images[k]);
        assert(state.images[i] != state.images[k]);
    }
}

/// The handle that interning is answered with is a handle of the pool, and
/// stands for the image that was interned.
pub proof fn lemma_interned(state: PoolState, align: nat, image: Seq<u8>)
    requires
        state.wf(),
        align > 0,
        state.handle(align, image) is Some,
    ensures
        state.intern(align, image).has(state.handle(align, image).unwrap()),
        state.intern(align, image).image_of(state.handle(align, image).unwrap()) == image,
{
    let after = state.intern(align, image);
    lemma_intern_wf(state, align, image);
    lemma_intern_again(state, align, image);
    let i = after.position(image).unwrap();
    assert(after.images.contains(image));
    lemma_image_of(after, i);
}

/// Two different values are answered with different handles, and with
/// different addresses unless one of them is empty.
pub proof fn lemma_intern_distinct(state: PoolState, align: nat, a: Seq<u8>, b: Seq<u8>)
    requires
        state.wf(),
        align > 0,
        a != b,
        state.handle(align, a) is Some,
        state.intern(align, a).handle(align, b) is Some,
    ensures
        state.handle(align, a).unwrap() != state.intern(align, a).handle(align, b).unwrap(),
        a.len() > 0 && b.len() > 0 ==> state.handle(align, a).unwrap().address != state.intern(
            align,
            a,
        ).handle(align, b).unwrap().address,
{
    let after = state.intern(align, a);
    let first = state.handle(align, a).unwrap();
    let second = after.handle(align, b).unwrap();
    lemma_intern_wf(state, align, a);
    lemma_intern_again(state, align, a);
    // where `a` is held once it has been interned
    let i = after.position(a).unwrap();
    assert(after.images.contains(a));
    assert(after.images[i] == a && 0 <= i < after.images.len());
    assert(after.addresses[i] == first.address);
    assert(after.addresses[i] + after.images[i].len() <= after.occupied);
    if a.len() == b.len() {
        if a.len() == 0 {
            assert(a =~= b);
        }
    }
    if a.len() > 0 && b.len() > 0 {
        match after.position(b) {
            Some(j) => {
                assert(after.images.contains(b));
                assert(after.images[j] == b && 0 <= j < after.images.len());
                if i < j {
                    assert(after.addresses[i] + after.images[i].len() <= after.addresses[j]);
                } else if j < i {
                    assert(after.addresses[j] + after.images[j].len() <= after.addresses[i]);
                }
            },
            None => {
                lemma_round_up_bounds(after.occupied, align);
            },
        }
    }
}

/// The number of images grows by one when a new value is stored, and not at
/// all otherwise, so that it counts the distinct values only.
pub proof fn lemma_len_counts_distinct(state: PoolState, align: nat, image: Seq<u8>)
    requires
        state.wf(),
        align > 0,
    ensures
        state.intern(align, image).images.len() == if state.images.contains(image) || !state.fits(
            align,
            image.len(),
        ) {
            state.images.len()
        } else {
            state.images.len() + 1
        },
        state.intern(align, image).images.no_duplicates(),
{
    lemma_intern_wf(state, align, image);
    let after = state.intern(align, image);
    assert forall|i: int, j: int|
        0 <= i < after.images.len() && 0 <= j < after.images.len() && i != j implies after.images[i]
        != after.images[j] by {
        if i < j {
            assert(after.images[i] != after.images[j]);
        } else {
            assert(after.images[j] != after.images[i]);
        }
    }
}

/// Values of a plain type that differ have images that differ, and such
/// images are not empty: what holds of distinct images holds of distinct
/// values.
pub proof fn lemma_distinct_values<T: Plain>(a: &T, b: &T)
    requires
        *a != *b,
    ensures
        a.image() != b.image(),
        a.image().len() > 0,
        b.image().len() > 0,
{
    if a.image() == b.image() {
        lemma_image_injective(a, b);
    }
    a.lemma_image_len();
    b.lemma_image_len();
    if a.image().len() == 0 {
        assert(a.image() =~= b.image());
    }
}

/// A reset empties the pool and leaves no handle of the generation that
/// ended valid.
pub proof fn lemma_pool_reset_invalidates(state: PoolState, span: Span)
    requires
        state.wf(),
        span.generation <= state.generation,
    ensures
        state.reset().wf(),
        state.reset().images.len() == 0,
        state.reset().occupied == 0,
        !state.reset().is_valid(span),
        !state.reset().has(span),
{
}

} // verus!
