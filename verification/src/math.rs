//! Vectors of unsigned 32-bit components, as index buffers and vertex
//! attributes hold them.

use crate::plain::{lemma_splice_concat, u32_image, u32_value, Plain};
use vstd::prelude::*;

verus! {

/// Two unsigned components: the ends of a line, or a pair of words.
#[derive(Clone, Copy, Debug, PartialEq, Eq, Structural)]
pub struct Vec2u {
    pub x: u32,
    pub y: u32,
}

impl Vec2u {
    pub fn new(x: u32, y: u32) -> (v: Vec2u)
        ensures
            v.x == x,
            v.y == y,
    {
        Vec2u { x, y }
    }
}

impl Plain for Vec2u {
    open spec fn spec_size() -> nat {
        8
    }

    open spec fn spec_align() -> nat {
        4
    }

    open spec fn image(&self) -> Seq<u8> {
        u32_image(self.x) + u32_image(self.y)
    }

    open spec fn decode(bytes: Seq<u8>) -> Option<Vec2u> {
        if bytes.len() == 8 {
            Some(
                Vec2u {
                    x: u32_value(bytes.subrange(0, 4)),
                    y: u32_value(bytes.subrange(4, 8)),
                },
            )
        } else {
            None
        }
    }

    proof fn lemma_layout() {
    }

    proof fn lemma_image_len(&self) {
    }

    proof fn lemma_decode_image(&self) {
        assert(self.image().subrange(0, 4) =~= u32_image(self.x));
        self.x.lemma_decode_image();
        assert(self.image().subrange(4, 8) =~= u32_image(self.y));
        self.y.lemma_decode_image();
    }

    proof fn lemma_decode_some(bytes: Seq<u8>) {
        if bytes.len() == 8 {
            u32::lemma_decode_some(bytes.subrange(0, 4));
            u32::lemma_decode_some(bytes.subrange(4, 8));
            assert(bytes.subrange(0, 4) + bytes.subrange(4, 8) =~= bytes);
        }
    }

    fn size() -> (size: usize) {
        8
    }

    fn align() -> (align: usize) {
        4
    }

    fn store(&self, out: &mut Vec<u8>, at: usize) {
        self.x.store(out, at);
        self.y.store(out, at + 4);
        proof {
            lemma_splice_concat(old(out)@, at as int, u32_image(self.x), u32_image(self.y));
        }
    }

    fn load(data: &[u8], at: usize) -> (value: Option<Vec2u>) {
        proof {
            assert(data@.subrange(at as int, at + 8).subrange(0, 4) =~= data@.subrange(
                at + 0,
                at + 4,
            ));
            assert(data@.subrange(at as int, at + 8).subrange(4, 8) =~= data@.subrange(
                at + 4,
                at + 8,
            ));
        }
        let x = match u32::load(data, at) {
            Some(x) => x,
            None => {
                return None;
            },
        };
        let y = match u32::load(data, at + 4) {
            Some(y) => y,
            None => {
                return None;
            },
        };
        Some(Vec2u { x, y })
    }
}

/// Three unsigned components: the corners of a triangle, or a triple of words.
#[derive(Clone, Copy, Debug, PartialEq, Eq, Structural)]
pub struct Vec3u {
    pub x: u32,
    pub y: u32,
    pub z: u32,
}

impl Vec3u {
    pub fn new(x: u32, y: u32, z: u32) -> (v: Vec3u)
        ensures
            v.x == x,
            v.y == y,
            v.z == z,
    {
        Vec3u { x, y, z }
    }
}

impl Plain for Vec3u {
    open spec fn spec_size() -> nat {
        12
    }

    open spec fn spec_align() -> nat {
        4
    }

    open spec fn image(&self) -> Seq<u8> {
        u32_image(self.x) + u32_image(self.y) + u32_image(self.z)
    }

    open spec fn decode(bytes: Seq<u8>) -> Option<Vec3u> {
        if bytes.len() == 12 {
            Some(
                Vec3u {
                    x: u32_value(bytes.subrange(0, 4)),
                    y: u32_value(bytes.subrange(4, 8)),
                    z: u32_value(bytes.subrange(8, 12)),
                },
            )
        } else {
            None
        }
    }

    proof fn lemma_layout() {
    }

    proof fn lemma_image_len(&self) {
    }

    proof fn lemma_decode_image(&self) {
        assert(self.image().subrange(0, 4) =~= u32_image(self.x));
        self.x.lemma_decode_image();
        assert(self.image().subrange(4, 8) =~= u32_image(self.y));
        self.y.lemma_decode_image();
        assert(self.image().subrange(8, 12) =~= u32_image(self.z));
        self.z.lemma_decode_image();
    }

    proof fn lemma_decode_some(bytes: Seq<u8>) {
        if bytes.len() == 12 {
            u32::lemma_decode_some(bytes.subrange(0, 4));
            u32::lemma_decode_some(bytes.subrange(4, 8));
            u32::lemma_decode_some(bytes.subrange(8, 12));
            assert(bytes.subrange(0, 4) + bytes.subrange(4, 8) + bytes.subrange(8, 12) =~= bytes);
        }
    }

    fn size() -> (size: usize) {
        12
    }

    fn align() -> (align: usize) {
        4
    }

    fn store(&self, out: &mut Vec<u8>, at: usize) {
        self.x.store(out, at);
        self.y.store(out, at + 4);
        self.z.store(out, at + 8);
        proof {
            lemma_splice_concat(old(out)@, at as int, u32_image(self.x), u32_image(self.y));
            lemma_splice_concat(
                old(out)@,
                at as int,
                u32_image(self.x) + u32_image(self.y),
                u32_image(self.z),
            );
        }
    }

    fn load(data: &[u8], at: usize) -> (value: Option<Vec3u>) {
        proof {
            assert(data@.subrange(at as int, at + 12).subrange(0, 4) =~= data@.subrange(
                at + 0,
                at + 4,
            ));
            assert(data@.subrange(at as int, at + 12).subrange(4, 8) =~= data@.subrange(
                at + 4,
                at + 8,
            ));
            assert(data@.subrange(at as int, at + 12).subrange(8, 12) =~= data@.subrange(
                at + 8,
                at + 12,
            ));
        }
        let x = match u32::load(data, at) {
            Some(x) => x,
            None => {
                return None;
            },
        };
        let y = match u32::load(data, at + 4) {
            Some(y) => y,
            None => {
                return None;
            },
        };
        let z = match u32::load(data, at + 8) {
            Some(z) => z,
            None => {
                return None;
            },
        };
        Some(Vec3u { x, y, z })
    }
}

/// Four unsigned components: the corners of a quad.
#[derive(Clone, Copy, Debug, PartialEq, Eq, Structural)]
pub struct Vec4u {
    pub x: u32,
    pub y: u32,
    pub z: u32,
    pub w: u32,
}

impl Vec4u {
    pub fn new(x: u32, y: u32, z: u32, w: u32) -> (v: Vec4u)
        ensures
            v.x == x,
            v.y == y,
            v.z == z,
            v.w == w,
    {
        Vec4u { x, y, z, w }
    }
}

impl Plain for Vec4u {
    open spec fn spec_size() -> nat {
        16
    }

    open spec fn spec_align() -> nat {
        4
    }

    open spec fn image(&self) -> Seq<u8> {
        u32_image(self.x) + u32_image(self.y) + u32_image(self.z) + u32_image(self.w)
    }

    open spec fn decode(bytes: Seq<u8>) -> Option<Vec4u> {
        if bytes.len() == 16 {
            Some(
                Vec4u {
                    x: u32_value(bytes.subrange(0, 4)),
                    y: u32_value(bytes.subrange(4, 8)),
                    z: u32_value(bytes.subrange(8, 12)),
                    w: u32_value(bytes.subrange(12, 16)),
                },
            )
        } else {
            None
        }
    }

    proof fn lemma_layout() {
    }

    proof fn lemma_image_len(&self) {
    }

    proof fn lemma_decode_image(&self) {
        assert(self.image().subrange(0, 4) =~= u32_image(self.x));
        self.x.lemma_decode_image();
        assert(self.image().subrange(4, 8) =~= u32_image(self.y));
        self.y.lemma_decode_image();
        assert(self.image().subrange(8, 12) =~= u32_image(self.z));
        self.z.lemma_decode_image();
        assert(self.image().subrange(12, 16) =~= u32_image(self.w));
        self.w.lemma_decode_image();
    }

    proof fn lemma_decode_some(bytes: Seq<u8>) {
        if bytes.len() == 16 {
            u32::lemma_decode_some(bytes.subrange(0, 4));
            u32::lemma_decode_some(bytes.subrange(4, 8));
            u32::lemma_decode_some(bytes.subrange(8, 12));
            u32::lemma_decode_some(bytes.subrange(12, 16));
            assert(bytes.subrange(0, 4) + bytes.subrange(4, 8) + bytes.subrange(8, 12)
                + bytes.subrange(12, 16) =~= bytes);
        }
    }

    fn size() -> (size: usize) {
        16
    }

    fn align() -> (align: usize) {
        4
    }

    fn store(&self, out: &mut Vec<u8>, at: usize) {
        self.x.store(out, at);
        self.y.store(out, at + 4);
        self.z.store(out, at + 8);
        self.w.store(out, at + 12);
        proof {
            lemma_splice_concat(old(out)@, at as int, u32_image(self.x), u32_image(self.y));
            lemma_splice_concat(
                old(out)@,
                at as int,
                u32_image(self.x) + u32_image(self.y),
                u32_image(self.z),
            );
            lemma_splice_concat(
                old(out)@,
                at as int,
                u32_image(self.x) + u32_image(self.y) + u32_image(self.z),
                u32_image(self.w),
            );
        }
    }

    fn load(data: &[u8], at: usize) -> (value: Option<Vec4u>) {
        proof {
            assert(data@.subrange(at as int, at + 16).subrange(0, 4) =~= data@.subrange(
                at + 0,
                at + 4,
            ));
            assert(data@.subrange(at as int, at + 16).subrange(4, 8) =~= data@.subrange(
                at + 4,
                at + 8,
            ));
            assert(data@.subrange(at as int, at + 16).subrange(8, 12) =~= data@.subrange(
                at + 8,
                at + 12,
            ));
            assert(data@.subrange(at as int, at + 16).subrange(12, 16) =~= data@.subrange(
                at + 12,
                at + 16,
            ));
        }
        let x = match u32::load(data, at) {
            Some(x) => x,
            None => {
                return None;
            },
        };
        let y = match u32::load(data, at + 4) {
            Some(y) => y,
            None => {
                return None;
            },
        };
        let z = match u32::load(data, at + 8) {
            Some(z) => z,
            None => {
                return None;
            },
        };
        let w = match u32::load(data, at + 12) {
            Some(w) => w,
            None => {
                return None;
            },
        };
        Some(Vec4u { x, y, z, w })
    }
}

} // verus!
