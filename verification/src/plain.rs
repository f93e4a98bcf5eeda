//! Plain data: values with a fixed layout and a byte image, which is what a
//! region of raw bytes can hold and give back without reinterpreting memory.

use vstd::prelude::*;

verus! {

/// `s` with the bytes from `at` on replaced by `image`.
pub open spec fn splice(s: Seq<u8>, at: int, image: Seq<u8>) -> Seq<u8>
    recommends
        0 <= at,
        at + image.len() <= s.len(),
{
    s.subrange(0, at) + image + s.subrange(at + image.len(), s.len() as int)
}

/// A spliced sequence keeps its length, holds the image at `at`, and is
/// untouched elsewhere.
pub proof fn lemma_splice(s: Seq<u8>, at: int, image: Seq<u8>)
    requires
        0 <= at,
        at + image.len() <= s.len(),
    ensures
        splice(s, at, image).len() == s.len(),
        splice(s, at, image).subrange(at, at + image.len()) == image,
        forall|i: int|
            0 <= i < s.len() && !(at <= i < at + image.len()) ==> #[trigger] splice(
                s,
                at,
                image,
            )[i] == s[i],
{
    assert(splice(s, at, image).subrange(at, at + image.len()) =~= image);
}

/// A range that does not meet the spliced bytes reads as before.
pub proof fn lemma_splice_disjoint(s: Seq<u8>, at: int, image: Seq<u8>, from: int, to: int)
    requires
        0 <= at,
        at + image.len() <= s.len(),
        0 <= from <= to <= s.len(),
        to <= at || at + image.len() <= from,
    ensures
        splice(s, at, image).subrange(from, to) == s.subrange(from, to),
{
    lemma_splice(s, at, image);
    assert(splice(s, at, image).subrange(from, to) =~= s.subrange(from, to));
}

/// Splicing two images one after the other is splicing their concatenation.
pub proof fn lemma_splice_concat(s: Seq<u8>, at: int, first: Seq<u8>, second: Seq<u8>)
    requires
        0 <= at,
        at + first.len() + second.len() <= s.len(),
    ensures
        splice(splice(s, at, first), at + first.len(), second) == splice(s, at, first + second),
{
    assert(splice(splice(s, at, first), at + first.len(), second) =~= splice(
        s,
        at,
        first + second,
    ));
}

/// A value with a fixed size and alignment and an exact byte image.
///
/// The image of a value is `spec_size()` bytes long, and decoding is the
/// inverse of taking the image: a byte string decodes to a value exactly when
/// it is that value's image. Two values are therefore equal exactly when
/// their images are.
pub trait Plain: Sized {
    /// Bytes that one element occupies.
    spec fn spec_size() -> nat;

    /// Alignment of an element's offset, in bytes.
    spec fn spec_align() -> nat;

    /// The bytes that stand for the value.
    spec fn image(&self) -> Seq<u8>;

    /// The value that `bytes` stand for, if any.
    spec fn decode(bytes: Seq<u8>) -> Option<Self>;

    /// The alignment is positive and the size fits the machine.
    proof fn lemma_layout()
        ensures
            Self::spec_align() > 0,
            Self::spec_align() <= usize::MAX,
            Self::spec_size() <= usize::MAX,
    ;

    /// An image is exactly one element wide.
    proof fn lemma_image_len(&self)
        ensures
            self.image().len() == Self::spec_size(),
    ;

    /// Decoding an image gives the value back.
    proof fn lemma_decode_image(&self)
        ensures
            Self::decode(self.image()) == Some(*self),
    ;

    /// Only images decode.
    proof fn lemma_decode_some(bytes: Seq<u8>)
        ensures
            Self::decode(bytes) matches Some(v) ==> v.image() == bytes,
    ;

    fn size() -> (size: usize)
        ensures
            size == Self::spec_size(),
    ;

    fn align() -> (align: usize)
        ensures
            align == Self::spec_align(),
            align > 0,
    ;

    /// Writes the image of `self` into `out`, starting at `at`.
    fn store(&self, out: &mut Vec<u8>, at: usize)
        requires
            at + Self::spec_size() <= old(out).len(),
        ensures
            final(out)@ == splice(old(out)@, at as int, self.image()),
    ;

    /// Reads the value whose image starts at `at` in `data`.
    fn load(data: &[u8], at: usize) -> (value: Option<Self>)
        requires
            at + Self::spec_size() <= data.len(),
        ensures
            value == Self::decode(data@.subrange(at as int, at + Self::spec_size())),
    ;
}

/// Values with equal images are equal.
pub proof fn lemma_image_injective<T: Plain>(a: &T, b: &T)
    requires
        a.image() == b.image(),
    ensures
        *a == *b,
{
    a.lemma_decode_image();
    b.lemma_decode_image();
}

impl Plain for u8 {
    open spec fn spec_size() -> nat {
        1
    }

    open spec fn spec_align() -> nat {
        1
    }

    open spec fn image(&self) -> Seq<u8> {
        seq![*self]
    }

    open spec fn decode(bytes: Seq<u8>) -> Option<u8> {
        if bytes.len() == 1 {
            Some(bytes[0])
        } else {
            None
        }
    }

    proof fn lemma_layout() {
    }

    proof fn lemma_image_len(&self) {
    }

    proof fn lemma_decode_image(&self) {
    }

    proof fn lemma_decode_some(bytes: Seq<u8>) {
        if bytes.len() == 1 {
            assert(seq![bytes[0]] =~= bytes);
        }
    }

    fn size() -> (size: usize) {
        1
    }

    fn align() -> (align: usize) {
        1
    }

    fn store(&self, out: &mut Vec<u8>, at: usize) {
        out[at] = *self;
        assert(out@ =~= splice(old(out)@, at as int, self.image()));
    }

    fn load(data: &[u8], at: usize) -> (value: Option<u8>) {
        Some(data[at])
    }
}

/// The four bytes of `x`, least significant first.
pub open spec fn u32_image(x: u32) -> Seq<u8> {
    seq![
        (x % 256) as u8,
        ((x / 256) % 256) as u8,
        ((x / 65536) % 256) as u8,
        ((x / 16777216) % 256) as u8,
    ]
}

/// The number whose bytes, least significant first, are `bytes`.
pub open spec fn u32_value(bytes: Seq<u8>) -> u32
    recommends
        bytes.len() == 4,
{
    (bytes[0] + 256 * bytes[1] + 65536 * bytes[2] + 16777216 * bytes[3]) as u32
}

impl Plain for u32 {
    open spec fn spec_size() -> nat {
        4
    }

    open spec fn spec_align() -> nat {
        4
    }

    open spec fn image(&self) -> Seq<u8> {
        u32_image(*self)
    }

    open spec fn decode(bytes: Seq<u8>) -> Option<u32> {
        if bytes.len() == 4 {
            Some(u32_value(bytes))
        } else {
            None
        }
    }

    proof fn lemma_layout() {
    }

    proof fn lemma_image_len(&self) {
    }

    #[verifier::rlimit(30)]
    proof fn lemma_decode_image(&self) {
    }

    #[verifier::rlimit(30)]
    proof fn lemma_decode_some(bytes: Seq<u8>) {
        if bytes.len() == 4 {
            let b0 = bytes[0] as int;
            let b1 = bytes[1] as int;
            let b2 = bytes[2] as int;
            let b3 = bytes[3] as int;
            let x = b0 + 256 * b1 + 65536 * b2 + 16777216 * b3;
            assert(u32_value(bytes) == x);
            assert(x % 256 == b0);
            assert(x / 256 == b1 + 256 * b2 + 65536 * b3);
            assert(x / 65536 == b2 + 256 * b3);
            assert(x / 16777216 == b3);
            assert(u32_image(u32_value(bytes)) =~= bytes);
        }
    }

    fn size() -> (size: usize) {
        4
    }

    fn align() -> (align: usize) {
        4
    }

    fn store(&self, out: &mut Vec<u8>, at: usize) {
        let x = *self;
        out[at] = (x % 256) as u8;
        out[at + 1] = ((x / 256) % 256) as u8;
        out[at + 2] = ((x / 65536) % 256) as u8;
        out[at + 3] = ((x / 16777216) % 256) as u8;
        assert(out@ =~= splice(old(out)@, at as int, self.image()));
    }

    fn load(data: &[u8], at: usize) -> (value: Option<u32>) {
        let b0 = data[at] as u32;
        let b1 = data[at + 1] as u32;
        let b2 = data[at + 2] as u32;
        let b3 = data[at + 3] as u32;
        Some(b0 + 256 * b1 + 65536 * b2 + 16777216 * b3)
    }
}

} // verus!
