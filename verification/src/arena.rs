//! A fixed-capacity region of bytes served by a single advancing cursor.
//!
//! Allocations are aligned, never overlap and cannot be freed one by one:
//! only the whole region is reset. Every reset starts a new generation, and
//! every handle carries the generation it was created in, so that a handle
//! kept across a reset can be told from a live one.

pub mod sequence;

use crate::arena::sequence::{perform_one, Call, Request};
use crate::layout::{round_up, span, span_end};
use crate::plain::{lemma_splice, splice, Plain};
use core::marker::PhantomData;
use vstd::prelude::*;
use vstd::string::StringSliceAdditionalSpecFns;

verus! {

/// What a handle is: where its bytes start, how many elements it spans, and
/// the generation it was created in.
pub struct Span {
    pub address: nat,
    pub len: nat,
    pub generation: nat,
}

/// What an arena is: its bytes, how many of them are taken, and how often it
/// has been reset.
pub struct ArenaState {
    pub bytes: Seq<u8>,
    pub occupied: nat,
    pub generation: nat,
}

impl ArenaState {
    pub open spec fn capacity(self) -> nat {
        self.bytes.len()
    }

    /// The cursor lies within the region, and the region within what the
    /// machine can address.
    pub open spec fn wf(self) -> bool {
        self.occupied <= self.capacity() <= usize::MAX
    }

    /// Whether `count` elements of the given layout still fit.
    pub open spec fn fits(self, align: nat, size: nat, count: nat) -> bool {
        span_end(self.occupied, align, size, count) <= self.capacity()
    }

    /// The state after a request for `count` elements: the cursor moves past
    /// the new run if it fits, and nothing changes if it does not.
    pub open spec fn reserve(self, align: nat, size: nat, count: nat) -> ArenaState {
        if self.fits(align, size, count) {
            ArenaState { occupied: span_end(self.occupied, align, size, count), ..self }
        } else {
            self
        }
    }

    /// The handle that a request for `count` elements is answered with.
    pub open spec fn granted(self, align: nat, size: nat, count: nat) -> Option<Span> {
        if self.fits(align, size, count) {
            Some(
                Span {
                    address: round_up(self.occupied, align),
                    len: count,
                    generation: self.generation,
                },
            )
        } else {
            None
        }
    }

    /// The state with `image` written at `at`.
    pub open spec fn write(self, at: nat, image: Seq<u8>) -> ArenaState {
        ArenaState { bytes: splice(self.bytes, at as int, image), ..self }
    }

    /// The state after a reset: nothing is taken, the bytes stay as they are,
    /// and a new generation begins.
    pub open spec fn reset(self) -> ArenaState {
        ArenaState { occupied: 0, generation: self.generation + 1, ..self }
    }

    /// A handle is valid while its generation is the current one and its
    /// address lies within the region.
    pub open spec fn is_valid(self, span: Span) -> bool {
        span.generation == self.generation && span.address < self.capacity()
    }

    /// A handle of the current generation whose elements, `size` bytes each,
    /// all lie in the taken part of the region.
    pub open spec fn holds(self, span: Span, size: nat) -> bool {
        span.generation == self.generation && span.address + span.len * size <= self.occupied
    }

    /// The bytes of element `index` of a handle.
    pub open spec fn element(self, span: Span, size: nat, index: nat) -> Seq<u8> {
        self.bytes.subrange(
            (span.address + index * size) as int,
            (span.address + (index + 1) * size) as int,
        )
    }

    /// Whether every element of a handle holds the image of a value of `T`.
    pub open spec fn decodes<T: Plain>(self, span: Span) -> bool {
        forall|i: nat|
            i < span.len ==> T::decode(#[trigger] self.element(span, T::spec_size(), i)) is Some
    }

    /// The values that the elements of a handle hold.
    pub open spec fn values<T: Plain>(self, span: Span) -> Seq<T> {
        Seq::new(
            span.len,
            |i: int| T::decode(self.element(span, T::spec_size(), i as nat)).unwrap(),
        )
    }

    /// All the bytes of a handle.
    pub open spec fn extent(self, span: Span, size: nat) -> Seq<u8> {
        self.bytes.subrange(span.address as int, (span.address + span.len * size) as int)
    }
}

/// The images of `values`, one after the other.
pub open spec fn images<T: Plain>(values: Seq<T>) -> Seq<u8>
    decreases values.len(),
{
    if values.len() == 0 {
        Seq::empty()
    } else {
        images(values.drop_last()) + values.last().image()
    }
}

/// The images of `n` values take `n` elements' worth of bytes.
pub proof fn lemma_images_len<T: Plain>(values: Seq<T>)
    ensures
        images(values).len() == values.len() * T::spec_size(),
    decreases values.len(),
{
    if values.len() > 0 {
        lemma_images_len(values.drop_last());
        values.last().lemma_image_len();
        assert((values.len() - 1) * T::spec_size() + T::spec_size() == values.len()
            * T::spec_size()) by (nonlinear_arith);
    }
}

/// The images of the first `n + 1` values are those of the first `n`,
/// followed by the image of the next.
pub proof fn lemma_images_take<T: Plain>(values: Seq<T>, n: int)
    requires
        0 <= n < values.len(),
    ensures
        images(values.take(n + 1)) == images(values.take(n)) + values[n].image(),
{
    assert(values.take(n + 1).drop_last() =~= values.take(n));
}

/// Element `index` of a run of `len` elements lies within the run.
pub proof fn lemma_element_range(len: nat, size: nat, index: nat)
    requires
        index < len,
    ensures
        index * size + size == (index + 1) * size,
        (index + 1) * size <= len * size,
{
    assert(index * size + size == (index + 1) * size) by (nonlinear_arith);
    assert((index + 1) * size <= len * size) by (nonlinear_arith)
        requires
            index + 1 <= len,
    ;
}

/// Reading after writing: an element that `value` was written into holds
/// `value`, and the other elements of the handle hold what they held.
pub proof fn lemma_write_then_read<T: Plain>(
    state: ArenaState,
    span: Span,
    index: nat,
    value: T,
    other: nat,
)
    requires
        state.wf(),
        state.holds(span, T::spec_size()),
        index < span.len,
        other < span.len,
    ensures
        T::decode(
            state.write(span.address + index * T::spec_size(), value.image()).element(
                span,
                T::spec_size(),
                index,
            ),
        ) == Some(value),
        other != index ==> state.write(
            span.address + index * T::spec_size(),
            value.image(),
        ).element(span, T::spec_size(), other) == state.element(span, T::spec_size(), other),
{
    let size = T::spec_size();
    let at = span.address + index * size;
    value.lemma_image_len();
    value.lemma_decode_image();
    lemma_element_range(span.len, size, index);
    lemma_element_range(span.len, size, other);
    lemma_splice(state.bytes, at as int, value.image());
    assert(state.write(at, value.image()).element(span, size, index) =~= value.image());
    if other != index {
        if other < index {
            assert((other + 1) * size <= index * size) by (nonlinear_arith)
                requires
                    other + 1 <= index,
            ;
        } else {
            assert((index + 1) * size <= other * size) by (nonlinear_arith)
                requires
                    index + 1 <= other,
            ;
        }
        crate::plain::lemma_splice_disjoint(
            state.bytes,
            at as int,
            value.image(),
            (span.address + other * size) as int,
            (span.address + (other + 1) * size) as int,
        );
    }
}

/// Copies `bytes` into `data`, starting at `at`.
fn write_bytes(data: &mut Vec<u8>, at: usize, bytes: &[u8])
    requires
        at + bytes.len() <= old(data).len(),
    ensures
        final(data)@ == splice(old(data)@, at as int, bytes@),
{
    let n = bytes.len();
    let mut k: usize = 0;
    while k < n
        invariant
            k <= n,
            n == bytes.len(),
            data.len() == old(data).len(),
            at + n <= data.len(),
            data@ == splice(old(data)@, at as int, bytes@.take(k as int)),
        decreases n - k,
    {
        data[at + k] = bytes[k];
        assert(data@ =~= splice(old(data)@, at as int, bytes@.take(k + 1)));
        k = k + 1;
    }
    assert(bytes@.take(n as int) =~= bytes@);
}

/// Writes the images of `values` into `data`, one after the other, starting
/// at `at`.
fn store_all<T: Plain>(data: &mut Vec<u8>, at: usize, values: &[T])
    requires
        at + values@.len() * T::spec_size() <= old(data).len(),
    ensures
        final(data)@ == splice(old(data)@, at as int, images(values@)),
{
    let count = values.len();
    let size = T::size();
    assert(data@ =~= splice(old(data)@, at as int, images(values@.take(0))));
    let mut i: usize = 0;
    while i < count
        invariant
            i <= count,
            count == values@.len(),
            size == T::spec_size(),
            data.len() == old(data).len(),
            at + count * size <= data.len(),
            data@ == splice(old(data)@, at as int, images(values@.take(i as int))),
        decreases count - i,
    {
        proof {
            lemma_element_range(count as nat, size as nat, i as nat);
            lemma_images_len(values@.take(i as int));
            lemma_images_take(values@, i as int);
            values@[i as int].lemma_image_len();
        }
        let place = at + i * size;
        values[i].store(data, place);
        proof {
            crate::plain::lemma_splice_concat(
                old(data)@,
                at as int,
                images(values@.take(i as int)),
                values@[i as int].image(),
            );
            lemma_splice(
                splice(old(data)@, at as int, images(values@.take(i as int))),
                place as int,
                values@[i as int].image(),
            );
        }
        i = i + 1;
    }
    assert(values@.take(count as int) =~= values@);
}

/// Copies `n` bytes of `data` from `src` to a place at or after their end.
fn copy_forward(data: &mut Vec<u8>, src: usize, dst: usize, n: usize)
    requires
        src + n <= dst,
        dst + n <= old(data).len(),
    ensures
        final(data)@ == splice(
            old(data)@,
            dst as int,
            old(data)@.subrange(src as int, src + n),
        ),
{
    let mut k: usize = 0;
    while k < n
        invariant
            k <= n,
            src + n <= dst,
            data.len() == old(data).len(),
            dst + n <= data.len(),
            data@ == splice(old(data)@, dst as int, old(data)@.subrange(src as int, src + k)),
        decreases n - k,
    {
        let byte = data[src + k];
        data[dst + k] = byte;
        assert(data@ =~= splice(
            old(data)@,
            dst as int,
            old(data)@.subrange(src as int, src + k + 1),
        ));
        k = k + 1;
    }
}

/// A non-owning, typed reference to a run of elements in an arena.
pub struct ArenaSlice<T> {
    offset: usize,
    len: usize,
    generation: u64,
    marker: PhantomData<T>,
}

impl<T> View for ArenaSlice<T> {
    type V = Span;

    closed spec fn view(&self) -> Span {
        Span {
            address: self.offset as nat,
            len: self.len as nat,
            generation: self.generation as nat,
        }
    }
}

impl<T> ArenaSlice<T> {
    /// Number of elements.
    pub fn len(&self) -> (len: usize)
        ensures
            len == self@.len,
    {
        self.len
    }

    pub fn is_empty(&self) -> (empty: bool)
        ensures
            empty == (self@.len == 0),
    {
        self.len == 0
    }

    /// Offset of the first byte from the start of the arena.
    pub fn address(&self) -> (address: usize)
        ensures
            address == self@.address,
    {
        self.offset
    }

    /// Generation of the arena at the time the handle was created.
    pub fn generation(&self) -> (generation: u64)
        ensures
            generation == self@.generation,
    {
        self.generation
    }
}

/// A region of bytes of fixed size, the cursor that separates what is taken
/// from what is free, and the number of resets so far.
pub struct Arena {
    data: Vec<u8>,
    offset: usize,
    generation: u64,
}

impl View for Arena {
    type V = ArenaState;

    closed spec fn view(&self) -> ArenaState {
        ArenaState {
            bytes: self.data@,
            occupied: self.offset as nat,
            generation: self.generation as nat,
        }
    }
}

impl Arena {
    /// A region of exactly `size` zero bytes, with nothing taken.
    pub fn new(size: usize) -> (arena: Arena)
        ensures
            arena@.bytes == Seq::new(size as nat, |i: int| 0u8),
            arena@.occupied == 0,
            arena@.generation == 0,
            arena@.wf(),
    {
        let data = vec![0u8; size];
        assert(data@ =~= Seq::new(size as nat, |i: int| 0u8));
        Arena { data, offset: 0, generation: 0 }
    }

    /// Moves the cursor past `count` elements of `size` bytes placed at the
    /// next multiple of `align`, and returns where they start. Fails, and
    /// changes nothing, when they do not fit.
    pub fn reserve(&mut self, align: usize, size: usize, count: usize) -> (start: Option<usize>)
        requires
            old(self)@.wf(),
            align > 0,
        ensures
            final(self)@ == old(self)@.reserve(align as nat, size as nat, count as nat),
            match start {
                Some(at) => old(self)@.fits(align as nat, size as nat, count as nat) && at
                    == round_up(old(self)@.occupied, align as nat),
                None => !old(self)@.fits(align as nat, size as nat, count as nat),
            },
            final(self)@.wf(),
    {
        assert(self@.capacity() == self.data.len());
        match span(self.offset, align, size, count) {
            Some((start, end)) => {
                if end <= self.data.len() {
                    self.offset = end;
                    Some(start)
                } else {
                    None
                }
            },
            None => None,
        }
    }

    /// Reserves `count` contiguous elements of `T` at the next aligned
    /// offset. Fails, and changes nothing, when they do not fit.
    pub fn allocate<T: Plain>(&mut self, count: usize) -> (slice: Option<ArenaSlice<T>>)
        requires
            old(self)@.wf(),
        ensures
            final(self)@ == old(self)@.reserve(T::spec_align(), T::spec_size(), count as nat),
            match slice {
                Some(s) => old(self)@.granted(T::spec_align(), T::spec_size(), count as nat)
                    == Some(s@),
                None => !old(self)@.fits(T::spec_align(), T::spec_size(), count as nat),
            },
            final(self)@ == perform_one(
                old(self)@,
                Call {
                    request: Request {
                        align: T::spec_align(),
                        size: T::spec_size(),
                        count: count as nat,
                    },
                    image: None,
                },
            ),
            final(self)@.wf(),
    {
        match self.reserve(T::align(), T::size(), count) {
            Some(start) => Some(
                ArenaSlice {
                    offset: start,
                    len: count,
                    generation: self.generation,
                    marker: PhantomData,
                },
            ),
            None => None,
        }
    }

    /// Forgets every allocation at once and starts a new generation. The
    /// bytes are left as they are.
    pub fn clear(&mut self)
        requires
            old(self)@.wf(),
            old(self)@.generation < u64::MAX,
        ensures
            final(self)@ == old(self)@.reset(),
            final(self)@.wf(),
    {
        self.offset = 0;
        self.generation = self.generation + 1;
    }

    /// Capacity in bytes.
    pub fn size(&self) -> (size: usize)
        ensures
            size == self@.capacity(),
    {
        self.data.len()
    }

    /// Bytes taken so far.
    pub fn occupied(&self) -> (occupied: usize)
        ensures
            occupied == self@.occupied,
    {
        self.offset
    }

    pub fn is_full(&self) -> (full: bool)
        ensures
            full == (self@.occupied == self@.capacity()),
    {
        self.offset == self.data.len()
    }

    /// Number of resets so far.
    pub fn generation(&self) -> (generation: u64)
        ensures
            generation == self@.generation,
    {
        self.generation
    }

    /// Whether `slice` was created in the current generation and points into
    /// the region.
    pub fn is_valid<T>(&self, slice: &ArenaSlice<T>) -> (valid: bool)
        ensures
            valid == self@.is_valid(slice@),
    {
        slice.generation == self.generation && slice.offset < self.data.len()
    }
}

impl Arena {
    /// Reserves one element and writes `value` into it.
    pub fn push<T: Plain>(&mut self, value: T) -> (slice: Option<ArenaSlice<T>>)
        requires
            old(self)@.wf(),
        ensures
            match slice {
                Some(s) => {
                    &&& old(self)@.granted(T::spec_align(), T::spec_size(), 1) == Some(s@)
                    &&& final(self)@ == old(self)@.reserve(
                        T::spec_align(),
                        T::spec_size(),
                        1,
                    ).write(s@.address, value.image())
                },
                None => {
                    &&& !old(self)@.fits(T::spec_align(), T::spec_size(), 1)
                    &&& final(self)@ == old(self)@
                },
            },
            final(self)@ == perform_one(
                old(self)@,
                Call {
                    request: Request { align: T::spec_align(), size: T::spec_size(), count: 1 },
                    image: Some(value.image()),
                },
            ),
            final(self)@.wf(),
    {
        match self.allocate::<T>(1) {
            Some(slice) => {
                proof {
                    value.lemma_image_len();
                    lemma_splice(self.data@, slice.offset as int, value.image());
                }
                value.store(&mut self.data, slice.offset);
                Some(slice)
            },
            None => None,
        }
    }

    /// Reserves `values.len()` elements and writes the values into them, in
    /// order.
    pub fn push_slice<T: Plain>(&mut self, values: &[T]) -> (slice: Option<ArenaSlice<T>>)
        requires
            old(self)@.wf(),
        ensures
            match slice {
                Some(s) => {
                    &&& old(self)@.granted(T::spec_align(), T::spec_size(), values@.len())
                        == Some(s@)
                    &&& final(self)@ == old(self)@.reserve(
                        T::spec_align(),
                        T::spec_size(),
                        values@.len(),
                    ).write(s@.address, images(values@))
                },
                None => {
                    &&& !old(self)@.fits(T::spec_align(), T::spec_size(), values@.len())
                    &&& final(self)@ == old(self)@
                },
            },
            final(self)@ == perform_one(
                old(self)@,
                Call {
                    request: Request {
                        align: T::spec_align(),
                        size: T::spec_size(),
                        count: values@.len(),
                    },
                    image: Some(images(values@)),
                },
            ),
            final(self)@.wf(),
    {
        let count = values.len();
        let slice = match self.allocate::<T>(count) {
            Some(slice) => slice,
            None => {
                return None;
            },
        };
        proof {
            lemma_images_len(values@);
            lemma_splice(self.data@, slice.offset as int, images(values@));
        }
        store_all(&mut self.data, slice.offset, values);
        Some(slice)
    }

    /// Writes `values` into the elements of `slice` from `start` on.
    pub fn write<T: Plain>(&mut self, slice: &ArenaSlice<T>, start: usize, values: &[T])
        requires
            old(self)@.wf(),
            old(self)@.holds(slice@, T::spec_size()),
            start + values@.len() <= slice@.len,
        ensures
            final(self)@ == old(self)@.write(
                (slice@.address + start * T::spec_size()) as nat,
                images(values@),
            ),
            final(self)@.wf(),
    {
        proof {
            lemma_images_len(values@);
            assert(start * T::spec_size() + values@.len() * T::spec_size() == (start
                + values@.len()) * T::spec_size()) by (nonlinear_arith);
            assert((start + values@.len()) * T::spec_size() <= slice@.len * T::spec_size())
                by (nonlinear_arith)
                requires
                    start + values@.len() <= slice@.len,
            ;
            assert(start * T::spec_size() >= 0) by (nonlinear_arith);
        }
        let at = slice.offset + start * T::size();
        proof {
            lemma_splice(self.data@, at as int, images(values@));
        }
        store_all(&mut self.data, at, values);
    }

    /// Reads every element of `slice`. `None` when some element holds no
    /// image of a value.
    pub fn read<T: Plain>(&self, slice: &ArenaSlice<T>) -> (read: Option<Vec<T>>)
        requires
            self@.wf(),
            self@.holds(slice@, T::spec_size()),
        ensures
            match read {
                Some(v) => self@.decodes::<T>(slice@) && v@ == self@.values::<T>(slice@),
                None => !self@.decodes::<T>(slice@),
            },
    {
        let count = slice.len;
        let mut values: Vec<T> = Vec::with_capacity(count);
        let mut i: usize = 0;
        while i < count
            invariant
                i <= count,
                count == slice@.len,
                self@.wf(),
                self@.holds(slice@, T::spec_size()),
                values@.len() == i,
                forall|j: nat|
                    j < i ==> T::decode(#[trigger] self@.element(slice@, T::spec_size(), j))
                        == Some(values@[j as int]),
            decreases count - i,
        {
            match self.get(slice, i) {
                Some(value) => {
                    values.push(value);
                },
                None => {
                    assert(T::decode(self@.element(slice@, T::spec_size(), i as nat)) is None);
                    return None;
                },
            }
            i = i + 1;
        }
        assert(values@ =~= self@.values::<T>(slice@));
        Some(values)
    }

    /// Reserves `bytes.len()` bytes at the next multiple of `align` and
    /// copies `bytes` into them.
    pub fn push_aligned(&mut self, bytes: &[u8], align: usize) -> (slice: Option<ArenaSlice<u8>>)
        requires
            old(self)@.wf(),
            align > 0,
        ensures
            match slice {
                Some(s) => {
                    &&& old(self)@.granted(align as nat, 1, bytes@.len()) == Some(s@)
                    &&& final(self)@ == old(self)@.reserve(align as nat, 1, bytes@.len()).write(
                        s@.address,
                        bytes@,
                    )
                },
                None => {
                    &&& !old(self)@.fits(align as nat, 1, bytes@.len())
                    &&& final(self)@ == old(self)@
                },
            },
            final(self)@.wf(),
    {
        match self.reserve(align, 1, bytes.len()) {
            Some(start) => {
                proof {
                    lemma_splice(self.data@, start as int, bytes@);
                }
                write_bytes(&mut self.data, start, bytes);
                Some(
                    ArenaSlice {
                        offset: start,
                        len: bytes.len(),
                        generation: self.generation,
                        marker: PhantomData,
                    },
                )
            },
            None => None,
        }
    }

    /// Reserves `bytes.len()` bytes and copies `bytes` into them.
    pub fn push_bytes(&mut self, bytes: &[u8]) -> (slice: Option<ArenaSlice<u8>>)
        requires
            old(self)@.wf(),
        ensures
            match slice {
                Some(s) => {
                    &&& old(self)@.granted(1, 1, bytes@.len()) == Some(s@)
                    &&& final(self)@ == old(self)@.reserve(1, 1, bytes@.len()).write(
                        s@.address,
                        bytes@,
                    )
                },
                None => {
                    &&& !old(self)@.fits(1, 1, bytes@.len())
                    &&& final(self)@ == old(self)@
                },
            },
            final(self)@.wf(),
    {
        self.push_aligned(bytes, 1)
    }

    /// Replaces the bytes from `address` on, which must lie in the taken
    /// part of the region, by `bytes`.
    pub fn overwrite(&mut self, address: usize, bytes: &[u8])
        requires
            old(self)@.wf(),
            address + bytes@.len() <= old(self)@.occupied,
        ensures
            final(self)@ == old(self)@.write(address as nat, bytes@),
            final(self)@.wf(),
    {
        proof {
            lemma_splice(self.data@, address as int, bytes@);
        }
        write_bytes(&mut self.data, address, bytes);
    }

    /// The `len` bytes from `address` on, which must lie in the taken part
    /// of the region.
    pub fn range(&self, address: usize, len: usize) -> (bytes: &[u8])
        requires
            self@.wf(),
            address + len <= self@.occupied,
        ensures
            bytes@ == self@.bytes.subrange(address as int, address + len),
    {
        vstd::slice::slice_subrange(self.data.as_slice(), address, address + len)
    }

    /// Whether `slice` belongs to the current generation and all its
    /// elements lie in the taken part of the region: the condition under
    /// which its elements may be read and written.
    pub fn contains<T: Plain>(&self, slice: &ArenaSlice<T>) -> (held: bool)
        ensures
            held == self@.holds(slice@, T::spec_size()),
    {
        if slice.generation != self.generation {
            return false;
        }
        proof {
            assert(slice.len as nat * T::spec_size() >= 0) by (nonlinear_arith);
        }
        match slice.len.checked_mul(T::size()) {
            Some(bytes) => match slice.offset.checked_add(bytes) {
                Some(end) => end <= self.offset,
                None => false,
            },
            None => false,
        }
    }

    /// Reads element `index` of `slice`: the value whose image the element
    /// holds, if it holds one.
    pub fn get<T: Plain>(&self, slice: &ArenaSlice<T>, index: usize) -> (value: Option<T>)
        requires
            self@.wf(),
            self@.holds(slice@, T::spec_size()),
            index < slice@.len,
        ensures
            value == T::decode(self@.element(slice@, T::spec_size(), index as nat)),
    {
        proof {
            lemma_element_range(slice.len as nat, T::spec_size(), index as nat);
        }
        let at = slice.offset + index * T::size();
        T::load(self.data.as_slice(), at)
    }

    /// Writes `value` into element `index` of `slice`.
    pub fn set<T: Plain>(&mut self, slice: &ArenaSlice<T>, index: usize, value: T)
        requires
            old(self)@.wf(),
            old(self)@.holds(slice@, T::spec_size()),
            index < slice@.len,
        ensures
            final(self)@ == old(self)@.write(
                (slice@.address + index * T::spec_size()) as nat,
                value.image(),
            ),
            final(self)@.wf(),
    {
        proof {
            lemma_element_range(slice.len as nat, T::spec_size(), index as nat);
            value.lemma_image_len();
        }
        let at = slice.offset + index * T::size();
        proof {
            lemma_splice(self.data@, at as int, value.image());
        }
        value.store(&mut self.data, at);
    }

    /// The bytes that `slice` refers to.
    pub fn bytes<T: Plain>(&self, slice: &ArenaSlice<T>) -> (bytes: &[u8])
        requires
            self@.wf(),
            self@.holds(slice@, T::spec_size()),
        ensures
            bytes@ == self@.extent(slice@, T::spec_size()),
    {
        proof {
            assert(slice.len as nat * T::spec_size() >= 0) by (nonlinear_arith);
        }
        let end = slice.offset + slice.len * T::size();
        vstd::slice::slice_subrange(self.data.as_slice(), slice.offset, end)
    }
}

impl Span {
    /// The part of a handle from element `from` up to element `to`.
    pub open spec fn part(self, size: nat, from: nat, to: nat) -> Span {
        Span { address: self.address + from * size, len: (to - from) as nat, ..self }
    }
}

/// An arena that holds a handle holds every part of it, and the elements of
/// the part are the elements of the handle from `from` on.
pub proof fn lemma_part(state: ArenaState, span: Span, size: nat, from: nat, to: nat, index: nat)
    requires
        state.holds(span, size),
        from <= to <= span.len,
        index < to - from,
    ensures
        state.holds(span.part(size, from, to), size),
        state.element(span.part(size, from, to), size, index) == state.element(
            span,
            size,
            from + index,
        ),
{
    assert(from * size + (to - from) * size == to * size) by (nonlinear_arith)
        requires
            from <= to,
    ;
    assert(to * size <= span.len * size) by (nonlinear_arith)
        requires
            to <= span.len,
    ;
    assert(from * size + index * size == (from + index) * size) by (nonlinear_arith);
    assert(from * size + (index + 1) * size == (from + index + 1) * size) by (nonlinear_arith);
}

impl<T: Plain> ArenaSlice<T> {
    /// The handle of the elements from `from` up to `to`. `None` when these
    /// are no elements of the handle.
    pub fn subslice(&self, from: usize, to: usize) -> (part: Option<ArenaSlice<T>>)
        ensures
            match part {
                Some(p) => from <= to <= self@.len && p@ == self@.part(
                    T::spec_size(),
                    from as nat,
                    to as nat,
                ),
                None => !(from <= to <= self@.len) || self@.address + from * T::spec_size()
                    > usize::MAX,
            },
    {
        if from > to || to > self.len {
            return None;
        }
        proof {
            assert(from as nat * T::spec_size() >= 0) by (nonlinear_arith);
        }
        let skipped = match from.checked_mul(T::size()) {
            Some(skipped) => skipped,
            None => {
                return None;
            },
        };
        match self.offset.checked_add(skipped) {
            Some(offset) => Some(
                ArenaSlice {
                    offset,
                    len: to - from,
                    generation: self.generation,
                    marker: PhantomData,
                },
            ),
            None => None,
        }
    }

    /// Copies the elements into a fresh allocation of the same arena and
    /// returns the handle of the copy. Fails, and changes nothing, when the
    /// copy does not fit.
    pub fn duplicate(&self, arena: &mut Arena) -> (copy: Option<ArenaSlice<T>>)
        requires
            old(arena)@.wf(),
            old(arena)@.holds(self@, T::spec_size()),
        ensures
            match copy {
                Some(c) => {
                    &&& old(arena)@.granted(T::spec_align(), T::spec_size(), self@.len) == Some(
                        c@,
                    )
                    &&& final(arena)@ == old(arena)@.reserve(
                        T::spec_align(),
                        T::spec_size(),
                        self@.len,
                    ).write(c@.address, old(arena)@.extent(self@, T::spec_size()))
                },
                None => {
                    &&& !old(arena)@.fits(T::spec_align(), T::spec_size(), self@.len)
                    &&& final(arena)@ == old(arena)@
                },
            },
            final(arena)@.wf(),
    {
        proof {
            T::lemma_layout();
            crate::layout::lemma_round_up_bounds(arena.offset as nat, T::spec_align());
            assert(self.len as nat * T::spec_size() >= 0) by (nonlinear_arith);
        }
        match arena.allocate::<T>(self.len) {
            Some(copy) => {
                let bytes = self.len * T::size();
                proof {
                    lemma_splice(
                        arena.data@,
                        copy.offset as int,
                        arena.data@.subrange(self.offset as int, self.offset + bytes),
                    );
                }
                copy_forward(&mut arena.data, self.offset, copy.offset, bytes);
                Some(copy)
            },
            None => None,
        }
    }
}

/// What a string handle is: the bytes reserved for it, and how many of them
/// have been written, counted from the start.
pub struct Text {
    pub span: Span,
    pub written: nat,
}

impl Text {
    /// No more is written than was reserved.
    pub open spec fn wf(self) -> bool {
        self.written <= self.span.len
    }

    /// The part of the reserved bytes that has been written.
    pub open spec fn filled(self) -> Span {
        Span { len: self.written, ..self.span }
    }
}

/// A handle of bytes reserved for UTF-8 text, with the length of the text
/// written so far.
pub struct ArenaString {
    inner: ArenaSlice<u8>,
    len: usize,
}

impl View for ArenaString {
    type V = Text;

    closed spec fn view(&self) -> Text {
        Text { span: self.inner@, written: self.len as nat }
    }
}

/// `core::str::from_utf8`: the bytes read as text. The standard library
/// returns the text over the very same bytes when they are valid UTF-8, and
/// an error when they are not.
#[verifier::external_body]
pub(crate) fn utf8_text(bytes: &[u8]) -> (text: Option<&str>)
    ensures
        match text {
            Some(t) => t.spec_bytes() == bytes@,
            None => !vstd::utf8::valid_utf8(bytes@),
        },
{
    core::str::from_utf8(bytes).ok()
}

impl ArenaString {
    /// An empty text over the bytes of `view`.
    pub fn from_slice(view: ArenaSlice<u8>) -> (string: ArenaString)
        ensures
            string@ == (Text { span: view@, written: 0 }),
            string@.wf(),
    {
        ArenaString { inner: view, len: 0 }
    }

    /// Bytes of text written so far.
    pub fn len(&self) -> (len: usize)
        ensures
            len == self@.written,
    {
        self.len
    }

    pub fn is_empty(&self) -> (empty: bool)
        ensures
            empty == (self@.written == 0),
    {
        self.len == 0
    }

    /// Bytes reserved for the text.
    pub fn capacity(&self) -> (capacity: usize)
        ensures
            capacity == self@.span.len,
    {
        self.inner.len
    }

    /// The handle of the reserved bytes.
    pub fn as_slice(&self) -> (slice: &ArenaSlice<u8>)
        ensures
            slice@ == self@.span,
    {
        &self.inner
    }

    /// Appends `text` if the reserved bytes have room for it, and says
    /// whether it did. When there is no room, nothing changes.
    pub fn write_str(&mut self, arena: &mut Arena, text: &str) -> (appended: bool)
        requires
            old(self)@.wf(),
            old(arena)@.wf(),
            old(arena)@.holds(old(self)@.span, 1),
        ensures
            appended == (old(self)@.written + text.spec_bytes().len() <= old(self)@.span.len),
            appended ==> final(self)@ == (Text {
                written: old(self)@.written + text.spec_bytes().len(),
                ..old(self)@
            }) && final(arena)@ == old(arena)@.write(
                old(self)@.span.address + old(self)@.written,
                text.spec_bytes(),
            ),
            !appended ==> final(self)@ == old(self)@ && final(arena)@ == old(arena)@,
            final(self)@.wf(),
            final(arena)@.wf(),
    {
        let bytes = text.as_bytes();
        if bytes.len() > self.inner.len - self.len {
            return false;
        }
        let at = self.inner.offset + self.len;
        proof {
            lemma_splice(arena.data@, at as int, bytes@);
        }
        write_bytes(&mut arena.data, at, bytes);
        self.len = self.len + bytes.len();
        true
    }
}

impl Arena {
    /// Reserves `len` bytes for text and returns them as an empty text.
    pub fn allocate_string(&mut self, len: usize) -> (string: Option<ArenaString>)
        requires
            old(self)@.wf(),
        ensures
            final(self)@ == old(self)@.reserve(1, 1, len as nat),
            match string {
                Some(s) => old(self)@.granted(1, 1, len as nat) == Some(s@.span) && s@.written
                    == 0,
                None => !old(self)@.fits(1, 1, len as nat),
            },
            final(self)@.wf(),
    {
        match self.allocate::<u8>(len) {
            Some(inner) => Some(ArenaString { inner, len: 0 }),
            None => None,
        }
    }

    /// Reserves as many bytes as `text` has, copies the text into them and
    /// records its length.
    pub fn push_string(&mut self, text: &str) -> (string: Option<ArenaString>)
        requires
            old(self)@.wf(),
        ensures
            match string {
                Some(s) => {
                    &&& old(self)@.granted(1, 1, text.spec_bytes().len()) == Some(s@.span)
                    &&& s@.written == text.spec_bytes().len()
                    &&& final(self)@ == old(self)@.reserve(1, 1, text.spec_bytes().len()).write(
                        s@.span.address,
                        text.spec_bytes(),
                    )
                },
                None => {
                    &&& !old(self)@.fits(1, 1, text.spec_bytes().len())
                    &&& final(self)@ == old(self)@
                },
            },
            final(self)@.wf(),
    {
        let bytes = text.as_bytes();
        match self.push_bytes(bytes) {
            Some(inner) => Some(ArenaString { inner, len: bytes.len() }),
            None => None,
        }
    }

    /// The written part of `string`, read as text. `None` when the bytes are
    /// not valid UTF-8.
    pub fn text(&self, string: &ArenaString) -> (text: Option<&str>)
        requires
            self@.wf(),
            string@.wf(),
            self@.holds(string@.span, 1),
        ensures
            match text {
                Some(t) => t.spec_bytes() == self@.extent(string@.filled(), 1),
                None => !vstd::utf8::valid_utf8(self@.extent(string@.filled(), 1)),
            },
    {
        let end = string.inner.offset + string.len;
        utf8_text(vstd::slice::slice_subrange(self.data.as_slice(), string.inner.offset, end))
    }
}

impl<T> ArenaSlice<T> {
    /// The handle of `len` elements that start at `offset` in the current
    /// generation of `arena`.
    pub(crate) fn at(arena: &Arena, offset: usize, len: usize) -> (slice: ArenaSlice<T>)
        ensures
            slice@ == (Span {
                address: offset as nat,
                len: len as nat,
                generation: arena@.generation,
            }),
    {
        ArenaSlice { offset, len, generation: arena.generation, marker: PhantomData }
    }
}

} // verus!
