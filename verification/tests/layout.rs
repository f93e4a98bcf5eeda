use monolith::layout::{align_up, span};

#[test]
fn align_up_rounds_to_the_next_multiple() {
    assert_eq!(align_up(0, 8), Some(0));
    assert_eq!(align_up(1, 8), Some(8));
    assert_eq!(align_up(8, 8), Some(8));
    assert_eq!(align_up(9, 8), Some(16));
    assert_eq!(align_up(13, 1), Some(13));
    assert_eq!(align_up(10, 3), Some(12));
    assert_eq!(align_up(usize::MAX, 1), Some(usize::MAX));
    assert_eq!(align_up(usize::MAX, 2), None);
    assert_eq!(align_up(usize::MAX - 7, 8), Some(usize::MAX - 7));
}

#[test]
fn span_gives_start_and_end() {
    assert_eq!(span(0, 4, 4, 3), Some((0, 12)));
    assert_eq!(span(5, 4, 4, 3), Some((8, 20)));
    assert_eq!(span(5, 8, 16, 0), Some((8, 8)));
    assert_eq!(span(5, 1, 0, 100), Some((5, 5)));
    assert_eq!(span(0, 1, 2, usize::MAX), None);
    assert_eq!(span(1, 1, 1, usize::MAX), None);
    assert_eq!(span(usize::MAX, 4, 1, 0), None);
    assert_eq!(span(0, 1, 1, usize::MAX), Some((0, usize::MAX)));
}
