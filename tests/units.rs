use soft_wrap::codec::{offset_from_utf16, offset_to_utf16};
use soft_wrap::grapheme::{next_boundary, next_boundary_in, previous_boundary, previous_boundary_in};
use soft_wrap::text::{floor_char_boundary, slice, splice};

#[test]
fn previous_boundary_steps_over_combining_sequence() {
    let text = "xa\u{310}b";
    assert_eq!(previous_boundary(text, 4), 1);
    assert_eq!(previous_boundary(text, 3), 1);
    assert_eq!(previous_boundary(text, 1), 0);
    assert_eq!(previous_boundary(text, 0), 0);
}

#[test]
fn next_boundary_steps_over_combining_sequence() {
    let text = "xa\u{310}b";
    assert_eq!(next_boundary(text, 0), 1);
    assert_eq!(next_boundary(text, 1), 4);
    assert_eq!(next_boundary(text, 4), 5);
    assert_eq!(next_boundary(text, 5), 5);
}

#[test]
fn boundaries_keep_regional_indicator_pairs() {
    let text = "\u{1F1F7}\u{1F1FA}\u{1F1F8}\u{1F1F9}";
    assert_eq!(next_boundary(text, 0), 8);
    assert_eq!(previous_boundary(text, 16), 8);
    assert_eq!(next_boundary("a\r\nb", 1), 3);
}

#[test]
fn boundaries_are_inverse_at_cluster_boundaries() {
    let text = "e\u{301}a\u{1F600}z";
    for o in [3usize, 4, 8, 9] {
        assert_eq!(next_boundary(text, previous_boundary(text, o)), o);
    }
    for o in [0usize, 3, 4, 8] {
        assert_eq!(previous_boundary(text, next_boundary(text, o)), o);
    }
}

#[test]
fn boundary_search_over_given_starts() {
    let starts = vec![0usize, 2, 5];
    assert_eq!(previous_boundary_in(&starts, 5), 2);
    assert_eq!(previous_boundary_in(&starts, 6), 5);
    assert_eq!(previous_boundary_in(&starts, 0), 0);
    assert_eq!(next_boundary_in(&starts, 2, 7), 5);
    assert_eq!(next_boundary_in(&starts, 5, 7), 7);
    assert_eq!(next_boundary_in(&Vec::new(), 0, 0), 0);
}

#[test]
fn utf16_offsets_of_surrogate_pairs() {
    let text = "a\u{1F600}b";
    assert_eq!(offset_to_utf16(text, 0), 0);
    assert_eq!(offset_to_utf16(text, 1), 1);
    assert_eq!(offset_to_utf16(text, 5), 3);
    assert_eq!(offset_to_utf16(text, 6), 4);
    assert_eq!(offset_from_utf16(text, 3), 5);
    assert_eq!(offset_from_utf16(text, 4), 6);
}

#[test]
fn utf16_offsets_round_down_inside_characters() {
    let text = "a\u{1F600}b";
    assert_eq!(offset_to_utf16(text, 3), 1);
    assert_eq!(offset_from_utf16(text, 2), 1);
    assert_eq!(offset_from_utf16(text, 40), 6);
    assert_eq!(offset_to_utf16(text, 40), 4);
    assert_eq!(offset_to_utf16("\u{e9}t\u{e9}", 3), 2);
}

#[test]
fn utf16_round_trip_lands_on_boundary() {
    let text = "x\u{e9}\u{1F600}y";
    for k in 0..=8usize {
        let once = offset_from_utf16(text, offset_to_utf16(text, k));
        assert!(text.is_char_boundary(once));
        assert!(once <= k);
        assert_eq!(offset_from_utf16(text, offset_to_utf16(text, once)), once);
        if text.is_char_boundary(k) {
            assert_eq!(once, k);
        }
    }
    assert_eq!(offset_from_utf16(text, offset_to_utf16(text, 5)), 3);
}

#[test]
fn text_slicing_and_splicing() {
    assert_eq!(slice("h\u{e9}llo", 1, 4), "\u{e9}l");
    assert_eq!(splice("h\u{e9}llo", 1, 3, "a"), "hallo");
    assert_eq!(splice("", 0, 0, "x"), "x");
    assert_eq!(floor_char_boundary("h\u{e9}", 2), 1);
    assert_eq!(floor_char_boundary("h\u{e9}", 9), 3);
}
