use monolith::math::{Vec2u, Vec3u, Vec4u};
use monolith::plain::Plain;

#[test]
fn a_byte_is_its_own_image() {
    let mut out = vec![0u8; 3];
    0xabu8.store(&mut out, 1);
    assert_eq!(out, vec![0, 0xab, 0]);
    assert_eq!(u8::load(&out, 1), Some(0xab));
    assert_eq!(<u8 as Plain>::size(), 1);
    assert_eq!(<u8 as Plain>::align(), 1);
}

#[test]
fn a_word_is_stored_least_significant_byte_first() {
    let mut out = vec![0xeeu8; 6];
    0x1234_5678u32.store(&mut out, 1);
    assert_eq!(out, vec![0xee, 0x78, 0x56, 0x34, 0x12, 0xee]);
    assert_eq!(u32::load(&out, 1), Some(0x1234_5678));
    assert_eq!(u32::load(&[0xff, 0xff, 0xff, 0xff], 0), Some(u32::MAX));
    assert_eq!(u32::load(&[0, 0, 0, 0x80], 0), Some(0x8000_0000));
    assert_eq!(<u32 as Plain>::size(), 4);
    assert_eq!(<u32 as Plain>::align(), 4);
    let mut again = vec![0u8; 4];
    u32::MAX.store(&mut again, 0);
    assert_eq!(again, vec![0xff; 4]);
}

#[test]
fn vectors_store_their_components_in_order() {
    let mut out = vec![0u8; 17];
    Vec4u::new(1, 0x0200, 0x03_0000, 0x0400_0000).store(&mut out, 1);
    assert_eq!(out, vec![0, 1, 0, 0, 0, 0, 2, 0, 0, 0, 0, 3, 0, 0, 0, 0, 4]);
    assert_eq!(Vec4u::load(&out, 1), Some(Vec4u::new(1, 0x0200, 0x03_0000, 0x0400_0000)));
    assert_eq!(Vec3u::load(&out, 1), Some(Vec3u::new(1, 0x0200, 0x03_0000)));
    assert_eq!(Vec2u::load(&out, 5), Some(Vec2u::new(0x0200, 0x03_0000)));
    assert_eq!(<Vec2u as Plain>::size(), 8);
    assert_eq!(<Vec3u as Plain>::size(), 12);
    assert_eq!(<Vec4u as Plain>::size(), 16);
    assert_eq!(<Vec4u as Plain>::align(), 4);
    let mut pair = vec![0u8; 8];
    Vec2u::new(u32::MAX, 7).store(&mut pair, 0);
    assert_eq!(pair, vec![0xff, 0xff, 0xff, 0xff, 7, 0, 0, 0]);
    let mut triple = vec![0u8; 12];
    Vec3u::new(1, 2, 3).store(&mut triple, 0);
    assert_eq!(triple, vec![1, 0, 0, 0, 2, 0, 0, 0, 3, 0, 0, 0]);
    assert_eq!(Vec3u::new(1, 2, 3).z, 3);
}
