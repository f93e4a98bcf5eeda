use monolith::arena::sequence::Layout;
use monolith::arena::{Arena, ArenaSlice, ArenaString};
use monolith::math::Vec4u;

/// A point of two double-precision coordinates, which an arena holds as the
/// four words of their bit patterns.
#[derive(Debug, Copy, Clone, PartialEq)]
struct Point {
    x: f64,
    y: f64,
}

#[derive(Debug, Copy, Clone, PartialEq)]
struct Entity {
    position: Point,
    velocity: Point,
    acceleration: f64,
    dummy: u8,
}

fn pair(low: u64, high: u64) -> Vec4u {
    Vec4u::new(low as u32, (low >> 32) as u32, high as u32, (high >> 32) as u32)
}

fn low(words: Vec4u) -> u64 {
    words.x as u64 | (words.y as u64) << 32
}

fn high(words: Vec4u) -> u64 {
    words.z as u64 | (words.w as u64) << 32
}

fn words(point: Point) -> Vec4u {
    pair(point.x.to_bits(), point.y.to_bits())
}

fn point(words: Vec4u) -> Point {
    Point { x: f64::from_bits(low(words)), y: f64::from_bits(high(words)) }
}

/// Words that an entity takes: three runs of four.
const ENTITY_WORDS: usize = 3;

fn set_entity(arena: &mut Arena, slice: &ArenaSlice<Vec4u>, index: usize, entity: Entity) {
    arena.set(slice, ENTITY_WORDS * index, words(entity.position));
    arena.set(slice, ENTITY_WORDS * index + 1, words(entity.velocity));
    arena.set(
        slice,
        ENTITY_WORDS * index + 2,
        pair(entity.acceleration.to_bits(), entity.dummy as u64),
    );
}

fn get_entity(arena: &Arena, slice: &ArenaSlice<Vec4u>, index: usize) -> Entity {
    let last = arena.get(slice, ENTITY_WORDS * index + 2).unwrap();
    Entity {
        position: point(arena.get(slice, ENTITY_WORDS * index).unwrap()),
        velocity: point(arena.get(slice, ENTITY_WORDS * index + 1).unwrap()),
        acceleration: f64::from_bits(low(last)),
        dummy: high(last) as u8,
    }
}

#[test]
fn test_arena() {
    let mut arena = Arena::new(1024);

    let first: ArenaSlice<Vec4u> = arena.allocate::<Vec4u>(1).unwrap();
    let second: ArenaSlice<Vec4u> = arena.allocate::<Vec4u>(1).unwrap();

    arena.set(&first, 0, words(Point { x: 1.0, y: 2.0 }));
    arena.set(&second, 0, words(Point { x: 3.0, y: 4.0 }));

    assert_eq!(point(arena.get(&first, 0).unwrap()).x, 1.0);
    assert_eq!(point(arena.get(&first, 0).unwrap()).y, 2.0);

    assert_eq!(point(arena.get(&second, 0).unwrap()).x, 3.0);
    assert_eq!(point(arena.get(&second, 0).unwrap()).y, 4.0);

    assert_eq!(arena.occupied(), core::mem::size_of::<Point>() * 2);
}

#[test]
fn test_arena_x() {
    let mut arena = Arena::new(1024);

    let entities: ArenaSlice<Vec4u> = arena.allocate::<Vec4u>(ENTITY_WORDS * 10).unwrap();

    for i in 0..10 {
        set_entity(
            &mut arena,
            &entities,
            i,
            Entity {
                position: Point { x: 1.0, y: 2.0 },
                velocity: Point { x: 3.0, y: 4.0 },
                acceleration: 5.0,
                dummy: 0,
            },
        );
    }

    for i in 0..10 {
        let entity = get_entity(&arena, &entities, i);
        assert_eq!(entity.position.x, 1.0);
        assert_eq!(entity.position.y, 2.0);

        assert_eq!(entity.velocity.x, 3.0);
        assert_eq!(entity.velocity.y, 4.0);

        assert_eq!(entity.acceleration, 5.0);
        assert_eq!(entity.dummy, 0);
    }

    assert_eq!(arena.occupied(), core::mem::size_of::<Entity>() * 10);
}

#[test]
fn test_full_arena() {
    let mut arena = Arena::new(core::mem::size_of::<Point>() * 2);

    let _first: ArenaSlice<Vec4u> = arena.allocate::<Vec4u>(1).unwrap();
    let _second: ArenaSlice<Vec4u> = arena.allocate::<Vec4u>(1).unwrap();

    assert!(arena.is_full());
    arena.clear();
    assert_eq!(arena.occupied(), 0);

    let _third: ArenaSlice<Vec4u> = arena.allocate::<Vec4u>(1).unwrap();
    let _fourth: ArenaSlice<Vec4u> = arena.allocate::<Vec4u>(1).unwrap();
    assert!(arena.is_full());
}

#[test]
fn test_arena_clear() {
    let mut arena = Arena::new(1024);

    let first = arena.allocate::<Vec4u>(1).unwrap();
    let second = arena.allocate::<Vec4u>(1).unwrap();

    arena.set(&first, 0, words(Point { x: 1.0, y: 2.0 }));
    arena.set(&second, 0, words(Point { x: 3.0, y: 4.0 }));

    assert_eq!(point(arena.get(&first, 0).unwrap()).x, 1.0);
    assert_eq!(point(arena.get(&first, 0).unwrap()).y, 2.0);

    assert_eq!(point(arena.get(&second, 0).unwrap()).x, 3.0);
    assert_eq!(point(arena.get(&second, 0).unwrap()).y, 4.0);

    assert_eq!(arena.occupied(), core::mem::size_of::<Point>() * 2);

    arena.clear();
    assert_eq!(arena.occupied(), 0);

    let third = arena.allocate::<Vec4u>(1).unwrap();
    let fourth = arena.allocate::<Vec4u>(1).unwrap();

    arena.set(&third, 0, words(Point { x: 5.0, y: 6.0 }));
    arena.set(&fourth, 0, words(Point { x: 7.0, y: 8.0 }));

    assert_eq!(point(arena.get(&third, 0).unwrap()).x, 5.0);
    assert_eq!(point(arena.get(&third, 0).unwrap()).y, 6.0);

    assert_eq!(point(arena.get(&fourth, 0).unwrap()).x, 7.0);
    assert_eq!(point(arena.get(&fourth, 0).unwrap()).y, 8.0);

    assert_eq!(arena.occupied(), core::mem::size_of::<Point>() * 2);
}

#[test]
fn test_arena_handle_mut() {
    let mut arena = Arena::new(1024);

    let p = arena.allocate::<Vec4u>(1).unwrap();

    for i in 0..p.len() {
        arena.set(&p, i, words(Point { x: 1.0, y: 2.0 }));
    }

    for stored in arena.read(&p).unwrap().iter() {
        assert_eq!(point(*stored).x, 1.0);
        assert_eq!(point(*stored).y, 2.0);
    }
}

#[test]
fn new_arena_is_zeroed_and_empty() {
    let arena = Arena::new(16);
    assert_eq!(arena.size(), 16);
    assert_eq!(arena.occupied(), 0);
    assert_eq!(arena.generation(), 0);
    assert!(!arena.is_full());
    assert_eq!(arena.range(0, 0), &[] as &[u8]);
    let mut arena = arena;
    let bytes = arena.allocate::<u8>(16).unwrap();
    assert_eq!(arena.bytes(&bytes), &[0u8; 16]);
}

#[test]
fn allocation_aligns_the_cursor() {
    let mut arena = Arena::new(64);
    let byte = arena.push(7u8).unwrap();
    assert_eq!(byte.address(), 0);
    assert_eq!(arena.occupied(), 1);
    // a word is placed at the next multiple of four
    let word = arena.push(0x0403_0201u32).unwrap();
    assert_eq!(word.address(), 4);
    assert_eq!(arena.occupied(), 8);
    assert_eq!(arena.bytes(&word), &[1u8, 2, 3, 4]);
    assert_eq!(arena.get(&word, 0), Some(0x0403_0201u32));
    assert_eq!(arena.get(&byte, 0), Some(7u8));
    // four words behind five more bytes are placed at the next multiple of four
    arena.allocate::<u8>(5).unwrap();
    assert_eq!(arena.occupied(), 13);
    let quads = arena.allocate::<Vec4u>(2).unwrap();
    assert_eq!(quads.address(), 16);
    assert_eq!(quads.len(), 2);
    assert_eq!(arena.occupied(), 48);
}

#[test]
fn cumulative_aligned_size_is_conserved() {
    let mut arena = Arena::new(32);
    assert!(arena.push(1u8).is_some()); // 0..1
    assert!(arena.push(2u32).is_some()); // 4..8
    assert!(arena.push_slice(&[3u8, 4, 5]).is_some()); // 8..11
    assert!(arena.allocate::<u32>(5).is_some()); // 12..32
    assert_eq!(arena.occupied(), 32);
    assert!(arena.is_full());
}

#[test]
fn exhaustion_leaves_the_arena_unchanged() {
    let mut arena = Arena::new(10);
    let first = arena.push_slice(&[1u32, 2]).unwrap();
    assert_eq!(arena.occupied(), 8);
    // padding counts: a word would start at 8 and end at 12
    assert!(arena.allocate::<u32>(1).is_none());
    assert_eq!(arena.occupied(), 8);
    assert_eq!(arena.generation(), 0);
    assert!(arena.push(9u32).is_none());
    assert!(arena.push_slice(&[9u8, 9, 9]).is_none());
    assert_eq!(arena.occupied(), 8);
    assert_eq!(arena.read(&first).unwrap(), vec![1u32, 2]);
    // two bytes still fit
    assert!(arena.allocate::<u8>(2).is_some());
    assert!(arena.is_full());
    assert!(arena.allocate::<u8>(1).is_none());
    // room for nothing is always there
    assert!(arena.allocate::<u8>(0).is_some());
}

#[test]
fn a_request_too_large_to_count_fails() {
    let mut arena = Arena::new(64);
    assert!(arena.allocate::<u32>(usize::MAX).is_none());
    assert!(arena.allocate::<Vec4u>(usize::MAX / 2).is_none());
    assert!(arena.reserve(8, usize::MAX, 2).is_none());
    assert_eq!(arena.occupied(), 0);
}

#[test]
fn a_full_arena_is_reset_and_filled_again() {
    let mut arena = Arena::new(2 * core::mem::size_of::<Point>());
    let first = arena.allocate::<Vec4u>(1).unwrap();
    let second = arena.allocate::<Vec4u>(1).unwrap();
    assert!(arena.is_full());
    assert!(arena.is_valid(&first));
    assert!(arena.is_valid(&second));
    assert!(arena.allocate::<Vec4u>(1).is_none());

    arena.clear();
    assert!(!arena.is_full());
    assert_eq!(arena.occupied(), 0);
    assert_eq!(arena.generation(), 1);

    let third = arena.allocate::<Vec4u>(1).unwrap();
    let fourth = arena.allocate::<Vec4u>(1).unwrap();
    assert!(arena.is_full());

    assert!(!arena.is_valid(&first));
    assert!(!arena.is_valid(&second));
    assert!(!arena.contains(&first));
    assert!(arena.is_valid(&third));
    assert!(arena.is_valid(&fourth));
    assert!(arena.contains(&third));
    assert_eq!(third.address(), first.address());
    assert_eq!(third.generation(), 1);
    assert_eq!(first.generation(), 0);
}

#[test]
fn clear_does_not_zero_the_bytes() {
    let mut arena = Arena::new(8);
    arena.push_slice(&[1u8, 2, 3, 4]).unwrap();
    arena.clear();
    let reused = arena.allocate::<u8>(4).unwrap();
    assert_eq!(arena.bytes(&reused), &[1u8, 2, 3, 4]);
}

#[test]
fn an_empty_handle_at_the_end_is_not_valid() {
    let mut arena = Arena::new(4);
    arena.allocate::<u32>(1).unwrap();
    let empty = arena.allocate::<u8>(0).unwrap();
    assert_eq!(empty.address(), 4);
    assert!(empty.is_empty());
    assert!(!arena.is_valid(&empty));
    assert!(arena.contains(&empty));
}

#[test]
fn a_handle_of_another_arena_is_not_contained() {
    let mut small = Arena::new(4);
    let mut large = Arena::new(64);
    large.allocate::<u32>(8).unwrap();
    let far = large.allocate::<u32>(8).unwrap();
    small.allocate::<u32>(1).unwrap();
    assert!(!small.contains(&far));
    assert!(!small.is_valid(&far));
    assert!(large.contains(&far));
}

#[test]
fn set_and_write_replace_elements_in_place() {
    let mut arena = Arena::new(64);
    let words = arena.push_slice(&[10u32, 20, 30, 40]).unwrap();
    arena.set(&words, 2, 33);
    assert_eq!(arena.read(&words).unwrap(), vec![10u32, 20, 33, 40]);
    arena.write(&words, 1, &[21, 31]);
    assert_eq!(arena.read(&words).unwrap(), vec![10u32, 21, 31, 40]);
    assert_eq!(arena.occupied(), 16);
    assert_eq!(arena.get(&words, 3), Some(40));
}

#[test]
fn duplicate_copies_into_a_fresh_allocation() {
    let mut arena = Arena::new(64);
    arena.push(1u8).unwrap();
    let words = arena.push_slice(&[5u32, 6, 7]).unwrap();
    assert_eq!(arena.occupied(), 16);
    let copy = words.duplicate(&mut arena).unwrap();
    assert_eq!(copy.address(), 16);
    assert_eq!(copy.len(), 3);
    assert_eq!(arena.occupied(), 28);
    assert_eq!(arena.read(&copy).unwrap(), vec![5u32, 6, 7]);
    // the copy shares no bytes with what it was made from
    arena.set(&copy, 0, 50);
    assert_eq!(arena.read(&words).unwrap(), vec![5u32, 6, 7]);
    assert_eq!(arena.read(&copy).unwrap(), vec![50u32, 6, 7]);
}

#[test]
fn duplicate_fails_without_room() {
    let mut arena = Arena::new(20);
    let words = arena.push_slice(&[5u32, 6, 7]).unwrap();
    assert!(words.duplicate(&mut arena).is_none());
    assert_eq!(arena.occupied(), 12);
    assert_eq!(arena.read(&words).unwrap(), vec![5u32, 6, 7]);
}

#[test]
fn push_string_records_the_length() {
    let mut arena = Arena::new(64);
    let text = arena.push_string("héllo").unwrap();
    assert_eq!(text.len(), 6);
    assert_eq!(text.capacity(), 6);
    assert_eq!(arena.occupied(), 6);
    assert_eq!(arena.text(&text), Some("héllo"));
    assert!(arena.push_string(&"x".repeat(59)).is_none());
    assert_eq!(arena.occupied(), 6);
    assert!(arena.push_string(&"x".repeat(58)).is_some());
    assert!(arena.is_full());
}

#[test]
fn text_of_bytes_that_are_not_utf8_is_absent() {
    let mut arena = Arena::new(8);
    let mut text = arena.allocate_string(4).unwrap();
    assert_eq!(arena.text(&text), Some(""));
    arena.set(text.as_slice(), 0, 0xffu8);
    // nothing is written as far as the text knows
    assert_eq!(arena.text(&text), Some(""));
    assert!(text.write_str(&mut arena, "ab"));
    assert_eq!(arena.text(&text), Some("ab"));
    arena.set(text.as_slice(), 1, 0xffu8);
    assert_eq!(arena.text(&text), None);
    arena.set(text.as_slice(), 1, b'c');
    assert_eq!(arena.text(&text), Some("ac"));
}

#[test]
fn from_slice_starts_an_empty_text() {
    let mut arena = Arena::new(8);
    let raw = arena.push_slice(&[0xffu8, 0xfe]).unwrap();
    let mut text = ArenaString::from_slice(raw);
    assert_eq!(text.len(), 0);
    assert_eq!(text.capacity(), 2);
    assert!(text.is_empty());
    assert!(!text.write_str(&mut arena, "abc"));
    assert!(text.is_empty());
    assert!(text.write_str(&mut arena, "ok"));
    assert_eq!(arena.text(&text), Some("ok"));
}

#[test]
fn write_str_appends_within_the_reserved_bytes() {
    let mut arena = Arena::new(32);
    let mut path = arena.allocate_string(9).unwrap();
    assert_eq!(path.capacity(), 9);
    assert!(path.is_empty());
    assert!(path.write_str(&mut arena, "src"));
    assert!(path.write_str(&mut arena, "/"));
    assert!(path.write_str(&mut arena, "lib.r"));
    assert_eq!(path.len(), 9);
    assert_eq!(arena.text(&path), Some("src/lib.r"));
    // no room for one more byte: nothing changes
    assert!(!path.write_str(&mut arena, "s"));
    assert_eq!(path.len(), 9);
    assert_eq!(arena.text(&path), Some("src/lib.r"));
    // nothing always fits
    assert!(path.write_str(&mut arena, ""));
    assert_eq!(arena.occupied(), 9);
}

#[test]
fn write_str_accepts_a_text_as_long_as_the_room() {
    let mut arena = Arena::new(4);
    let mut text = arena.allocate_string(4).unwrap();
    assert!(!text.write_str(&mut arena, "hello"));
    assert!(text.write_str(&mut arena, "hell"));
    assert_eq!(arena.text(&text), Some("hell"));
}

#[test]
fn push_aligned_places_bytes_at_a_multiple() {
    let mut arena = Arena::new(32);
    arena.push_bytes(&[1, 2, 3]).unwrap();
    let placed = arena.push_aligned(&[9, 8], 8).unwrap();
    assert_eq!(placed.address(), 8);
    assert_eq!(arena.occupied(), 10);
    assert_eq!(arena.range(8, 2), &[9u8, 8]);
    assert!(arena.push_aligned(&[0; 16], 16).is_some());
    assert!(arena.is_full());
}

#[test]
fn requests_are_served_until_one_is_refused() {
    let mut arena = Arena::new(40);
    let layouts = [
        Layout { align: 4, size: 12, count: 2 },
        Layout { align: 8, size: 1, count: 3 },
        Layout { align: 2, size: 2, count: 4 },
    ];
    assert_eq!(arena.reserve_all(&layouts), Some(vec![0, 24, 28]));
    assert_eq!(arena.occupied(), 36);
    // the second request is refused: the first stays served and the third
    // is not made
    let layouts = [
        Layout { align: 1, size: 1, count: 2 },
        Layout { align: 1, size: 1, count: 3 },
        Layout { align: 1, size: 1, count: 1 },
    ];
    assert_eq!(arena.reserve_all(&layouts), None);
    assert_eq!(arena.occupied(), 38);
    assert_eq!(arena.reserve_all(&[]), Some(vec![]));
    assert_eq!(arena.reserve(2, 1, 2), Some(38));
    assert_eq!(arena.reserve(1, 1, 1), None);
}

#[test]
fn overwrite_replaces_bytes_in_place() {
    let mut arena = Arena::new(8);
    let bytes = arena.push_slice(&[1u8, 2, 3, 4, 5]).unwrap();
    arena.overwrite(1, &[20, 30]);
    assert_eq!(arena.bytes(&bytes), &[1u8, 20, 30, 4, 5]);
    arena.overwrite(5, &[]);
    assert_eq!(arena.range(3, 2), &[4u8, 5]);
    assert_eq!(arena.occupied(), 5);
}

#[test]
fn a_handle_can_be_cut_into_parts() {
    let mut arena = Arena::new(64);
    arena.push(0u8).unwrap();
    let words = arena.push_slice(&[10u32, 20, 30, 40, 50]).unwrap();
    let middle = words.subslice(1, 4).unwrap();
    assert_eq!(middle.address(), 8);
    assert_eq!(middle.len(), 3);
    assert_eq!(middle.generation(), words.generation());
    assert!(arena.contains(&middle));
    assert_eq!(arena.read(&middle).unwrap(), vec![20u32, 30, 40]);
    arena.set(&middle, 0, 21);
    assert_eq!(arena.get(&words, 1), Some(21));
    let empty = words.subslice(5, 5).unwrap();
    assert!(empty.is_empty());
    assert_eq!(empty.address(), 24);
    assert!(words.subslice(0, 5).is_some());
    assert!(words.subslice(2, 1).is_none());
    assert!(words.subslice(0, 6).is_none());
    assert!(words.subslice(6, 6).is_none());
    arena.clear();
    assert!(!arena.is_valid(&middle));
}
