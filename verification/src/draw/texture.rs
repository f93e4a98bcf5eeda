//! A rectangle of pixels whose bytes live in an arena.

use crate::arena::{Arena, ArenaSlice, Span};
use vstd::prelude::*;

verus! {

/// What a texture is: its extent, and the handle of its bytes.
pub struct TextureSpec {
    pub width: nat,
    pub height: nat,
    pub channels: nat,
    pub data: Span,
}

impl TextureSpec {
    /// Bytes that the pixels take.
    pub open spec fn bytes(self) -> nat {
        self.width * self.height * self.channels
    }
}

/// A rectangle of pixels of a number of channels, one byte for each channel
/// of each pixel.
pub struct Texture {
    width: u32,
    height: u32,
    channels: u32,
    data: ArenaSlice<u8>,
}

impl View for Texture {
    type V = TextureSpec;

    closed spec fn view(&self) -> TextureSpec {
        TextureSpec {
            width: self.width as nat,
            height: self.height as nat,
            channels: self.channels as nat,
            data: self.data@,
        }
    }
}

/// The product of the three extents, or `None` when it does not fit in a
/// `usize`.
fn volume(width: u32, height: u32, channels: u32) -> (bytes: Option<usize>)
    ensures
        match bytes {
            Some(n) => n == width as nat * height as nat * channels as nat,
            None => width as nat * height as nat * channels as nat > usize::MAX,
        },
{
    if width == 0 || height == 0 || channels == 0 {
        assert(width as nat * height as nat * channels as nat == 0) by (nonlinear_arith)
            requires
                width == 0 || height == 0 || channels == 0,
        ;
        return Some(0);
    }
    match (width as usize).checked_mul(height as usize) {
        Some(area) => area.checked_mul(channels as usize),
        None => {
            assert(width as nat * height as nat * channels as nat > usize::MAX)
                by (nonlinear_arith)
                requires
                    width as nat * height as nat > usize::MAX,
                    channels >= 1,
            ;
            None
        },
    }
}

impl Texture {
    /// Reserves one byte for each channel of each pixel. Fails, and changes
    /// nothing, when the arena has no room for them.
    pub fn new(arena: &mut Arena, width: u32, height: u32, channels: u32) -> (texture: Option<
        Texture,
    >)
        requires
            old(arena)@.wf(),
        ensures
            final(arena)@ == old(arena)@.reserve(
                1,
                1,
                width as nat * height as nat * channels as nat,
            ),
            match texture {
                Some(t) => {
                    &&& t@.width == width
                    &&& t@.height == height
                    &&& t@.channels == channels
                    &&& old(arena)@.granted(1, 1, t@.bytes()) == Some(t@.data)
                },
                None => !old(arena)@.fits(1, 1, width as nat * height as nat * channels as nat),
            },
            final(arena)@.wf(),
    {
        let bytes = match volume(width, height, channels) {
            Some(bytes) => bytes,
            None => {
                assert(width as nat * height as nat * channels as nat * 1 > usize::MAX);
                return None;
            },
        };
        match arena.allocate::<u8>(bytes) {
            Some(data) => Some(Texture { width, height, channels, data }),
            None => None,
        }
    }

    pub fn width(&self) -> (width: u32)
        ensures
            width == self@.width,
    {
        self.width
    }

    pub fn height(&self) -> (height: u32)
        ensures
            height == self@.height,
    {
        self.height
    }

    pub fn channels(&self) -> (channels: u32)
        ensures
            channels == self@.channels,
    {
        self.channels
    }

    /// The handle of the bytes.
    pub fn slice(&self) -> (slice: &ArenaSlice<u8>)
        ensures
            slice@ == self@.data,
    {
        &self.data
    }

    /// The bytes of the pixels, as `arena` holds them.
    pub fn data<'a>(&self, arena: &'a Arena) -> (bytes: &'a [u8])
        requires
            arena@.wf(),
            arena@.holds(self@.data, 1),
        ensures
            bytes@ == arena@.extent(self@.data, 1),
    {
        arena.bytes(&self.data)
    }

    /// Sets byte `index` of the pixels.
    pub fn put(&self, arena: &mut Arena, index: usize, value: u8)
        requires
            old(arena)@.wf(),
            old(arena)@.holds(self@.data, 1),
            index < self@.data.len,
        ensures
            final(arena)@ == old(arena)@.write((self@.data.address + index) as nat, seq![value]),
            final(arena)@.wf(),
    {
        arena.set(&self.data, index, value);
    }
}

} // verus!
