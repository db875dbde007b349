use soft_wrap::TextInput;

fn buffer(lines: &[&str]) -> TextInput {
    TextInput::from_lines(lines.iter().map(|s| s.to_string()).collect()).unwrap()
}

fn texts(input: &TextInput) -> Vec<String> {
    (0..input.line_count()).map(|i| input.line(i).content().to_string()).collect()
}

fn active_selection(input: &TextInput) -> (usize, std::ops::Range<usize>, bool) {
    let line = input.line(input.active_line());
    (input.active_line(), line.selected_range(), line.selection_reversed())
}

#[test]
fn new_buffer_has_one_empty_line() {
    let input = TextInput::new();
    assert_eq!(texts(&input), vec![""]);
    assert_eq!(active_selection(&input), (0, 0..0, false));
    assert!(!input.is_selecting());
}

#[test]
fn from_lines_rejects_empty_list() {
    assert!(TextInput::from_lines(Vec::new()).is_none());
}

#[test]
fn reflow_moves_overflowing_word_to_new_line() {
    let mut input = buffer(&["Hello world"]);
    input.end();
    assert_eq!(input.check_bounds(0, true, 8), Some(1));
    assert_eq!(texts(&input), vec!["Hello", "world"]);
    // the caret was inside the moved word, at its end: it moves along
    assert_eq!(active_selection(&input), (1, 5..5, false));
    assert_eq!(input.check_bounds(1, false, 0), None);
    assert_eq!(texts(&input), vec!["Hello", "world"]);
}

#[test]
fn reflow_joins_moved_text_with_a_space() {
    let mut input = buffer(&["one two three", "four"]);
    assert_eq!(input.check_bounds(0, true, 9), Some(1));
    assert_eq!(texts(&input), vec!["one two", "three four"]);
    // the caret was at the start of the first line and stays there
    assert_eq!(active_selection(&input), (0, 0..0, false));
}

#[test]
fn reflow_into_empty_line_adds_no_space() {
    let mut input = buffer(&["alpha beta", ""]);
    assert_eq!(input.check_bounds(0, true, 7), Some(1));
    assert_eq!(texts(&input), vec!["alpha", "beta"]);
}

#[test]
fn reflow_cascades_to_following_lines() {
    let mut input = buffer(&["aa bb cc", "dd ee"]);
    assert_eq!(input.check_bounds(0, true, 6), Some(1));
    assert_eq!(texts(&input), vec!["aa bb", "cc dd ee"]);
    assert_eq!(input.check_bounds(1, true, 5), Some(2));
    assert_eq!(texts(&input), vec!["aa bb", "cc dd", "ee"]);
    assert_eq!(input.check_bounds(2, false, 2), None);
}

#[test]
fn reflow_carries_caret_at_corresponding_offset() {
    let mut input = buffer(&["Hello world"]);
    input.end();
    input.left();
    input.left();
    assert_eq!(active_selection(&input), (0, 9..9, false));
    assert_eq!(input.check_bounds(0, true, 10), Some(1));
    assert_eq!(active_selection(&input), (1, 3..3, false));
}

#[test]
fn reflow_of_a_single_long_word_accepts_the_overflow() {
    let mut input = buffer(&["unbreakable"]);
    assert_eq!(input.check_bounds(0, true, 4), None);
    assert_eq!(texts(&input), vec!["unbreakable"]);
}

#[test]
fn reflow_of_fitting_line_changes_nothing() {
    let mut input = buffer(&["Hello world"]);
    assert_eq!(input.check_bounds(0, false, 3), None);
    assert_eq!(texts(&input), vec!["Hello world"]);
    // running the converged pass again leaves it as it is
    assert_eq!(input.check_bounds(0, false, 3), None);
    assert_eq!(texts(&input), vec!["Hello world"]);
}

#[test]
fn reflow_step_repeated_on_same_line_does_nothing() {
    let mut input = buffer(&["Hello world"]);
    assert_eq!(input.check_bounds(0, true, 8), Some(1));
    let after_first: Vec<String> = texts(&input);
    // "Hello" now fits: measured again it does not overflow
    assert_eq!(input.check_bounds(0, false, 8), None);
    assert_eq!(texts(&input), after_first);
}

#[test]
fn reflow_keeps_flow_of_words() {
    let mut input = buffer(&["a b c d", "e f"]);
    let before = texts(&input).join(" ");
    let mut next = Some(0);
    let fits = [3usize, 3, 3, 3];
    let mut step = 0;
    while let Some(i) = next {
        let overflows = input.line(i).content().len() > fits[step];
        next = input.check_bounds(i, overflows, fits[step]);
        step += 1;
    }
    let after: Vec<String> = texts(&input).into_iter().filter(|t| !t.is_empty()).collect();
    assert_eq!(after.join(" "), before);
    assert_eq!(texts(&input), vec!["a b", "c d", "e f"]);
}

#[test]
fn backspace_at_line_start_merges_without_space() {
    let mut input = buffer(&["Hello", "world"]);
    input.down();
    assert_eq!(active_selection(&input), (1, 0..0, false));
    input.backspace();
    assert_eq!(texts(&input), vec!["Helloworld"]);
    assert_eq!(active_selection(&input), (0, 5..5, false));
}

#[test]
fn backspace_deletes_previous_grapheme() {
    let mut input = buffer(&["ae\u{301}"]);
    input.end();
    input.backspace();
    assert_eq!(texts(&input), vec!["a"]);
    assert_eq!(active_selection(&input), (0, 1..1, false));
}

#[test]
fn backspace_deletes_selection() {
    let mut input = buffer(&["abcd"]);
    input.right();
    input.select_right();
    input.select_right();
    input.backspace();
    assert_eq!(texts(&input), vec!["ad"]);
    assert_eq!(active_selection(&input), (0, 1..1, false));
}

#[test]
fn backspace_at_buffer_start_does_nothing() {
    let mut input = buffer(&["abc"]);
    input.backspace();
    assert_eq!(texts(&input), vec!["abc"]);
    assert_eq!(active_selection(&input), (0, 0..0, false));
}

#[test]
fn delete_removes_next_grapheme_but_never_joins_lines() {
    let mut input = buffer(&["xy", "z"]);
    input.delete();
    assert_eq!(texts(&input), vec!["y", "z"]);
    input.end();
    input.delete();
    assert_eq!(texts(&input), vec!["y", "z"]);
    assert_eq!(active_selection(&input), (0, 1..1, false));
}

#[test]
fn enter_at_end_adds_empty_line() {
    let mut input = buffer(&["ab"]);
    input.end();
    input.enter();
    assert_eq!(texts(&input), vec!["ab", ""]);
    assert_eq!(active_selection(&input), (1, 0..0, false));
}

#[test]
fn enter_splits_line_at_caret() {
    let mut input = buffer(&["hello", "next"]);
    input.right();
    input.right();
    input.enter();
    assert_eq!(texts(&input), vec!["he", "llo", "next"]);
    assert_eq!(active_selection(&input), (1, 0..0, false));
}

#[test]
fn select_left_moves_active_end_of_forward_selection() {
    let mut input = buffer(&["abcd"]);
    input.right();
    input.select_right();
    input.select_right();
    assert_eq!(active_selection(&input), (0, 1..3, false));
    input.select_left();
    assert_eq!(active_selection(&input), (0, 1..2, false));
}

#[test]
fn select_left_past_anchor_flips_direction() {
    let mut input = buffer(&["abcd"]);
    input.right();
    input.right();
    input.select_right();
    input.select_left();
    input.select_left();
    assert_eq!(active_selection(&input), (0, 1..2, true));
    assert_eq!(input.cursor_offset(), 1);
}

#[test]
fn left_and_right_cross_line_boundaries() {
    let mut input = buffer(&["ab", "cd"]);
    input.down();
    input.left();
    assert_eq!(active_selection(&input), (0, 2..2, false));
    input.right();
    assert_eq!(active_selection(&input), (1, 0..0, false));
}

#[test]
fn left_and_right_collapse_a_selection() {
    let mut input = buffer(&["abcd"]);
    input.right();
    input.select_right();
    input.select_right();
    input.left();
    assert_eq!(active_selection(&input), (0, 1..1, false));
    input.select_right();
    input.select_right();
    input.right();
    assert_eq!(active_selection(&input), (0, 3..3, false));
}

#[test]
fn left_at_buffer_start_does_nothing() {
    let mut input = buffer(&["ab"]);
    input.left();
    assert_eq!(active_selection(&input), (0, 0..0, false));
}

#[test]
fn right_steps_over_whole_grapheme() {
    let mut input = buffer(&["e\u{301}x"]);
    input.right();
    assert_eq!(active_selection(&input), (0, 3..3, false));
}

#[test]
fn up_and_down_clamp_caret_to_shorter_line() {
    let mut input = buffer(&["ab", "abcdef"]);
    input.down();
    input.end();
    input.up();
    assert_eq!(active_selection(&input), (0, 2..2, false));
    input.down();
    assert_eq!(active_selection(&input), (1, 2..2, false));
    input.down();
    assert_eq!(active_selection(&input), (1, 2..2, false));
}

#[test]
fn up_moves_caret_back_to_character_boundary() {
    let mut input = buffer(&["\u{e9}\u{e9}", "abc"]);
    input.down();
    input.right();
    input.up();
    assert_eq!(active_selection(&input), (0, 0..0, false));
}

#[test]
fn select_all_home_and_end() {
    let mut input = buffer(&["first", "second"]);
    input.down();
    input.select_all();
    assert_eq!(active_selection(&input), (1, 0..6, false));
    input.home();
    assert_eq!(active_selection(&input), (1, 0..0, false));
    input.end();
    assert_eq!(active_selection(&input), (1, 6..6, false));
    input.cursor_to_start();
    assert_eq!(input.cursor_offset(), 0);
    input.cursor_to_end();
    assert_eq!(input.cursor_offset(), 6);
}

#[test]
fn replace_text_in_range_collapses_caret_after_insert() {
    let mut input = buffer(&["hello"]);
    input.replace_text_in_range(Some(1..3), "XYZ");
    assert_eq!(texts(&input), vec!["hXYZlo"]);
    assert_eq!(active_selection(&input), (0, 4..4, false));
    assert_eq!(input.line(0).marked_range(), None);
}

#[test]
fn replace_text_in_range_uses_selection_without_range() {
    let mut input = buffer(&["abcd"]);
    input.select_all();
    input.replace_text_in_range(None, "z");
    assert_eq!(texts(&input), vec!["z"]);
    assert_eq!(active_selection(&input), (0, 1..1, false));
}

#[test]
fn typing_inserts_at_caret() {
    let mut input = TextInput::new();
    input.replace_text_in_range(None, "Hi");
    input.replace_text_in_range(None, "!");
    assert_eq!(texts(&input), vec!["Hi!"]);
    assert_eq!(input.cursor_offset(), 3);
}

#[test]
fn replace_text_in_range_converts_utf16_offsets() {
    let mut input = buffer(&["a\u{1F600}b"]);
    input.replace_text_in_range(Some(1..3), "c");
    assert_eq!(texts(&input), vec!["acb"]);
    assert_eq!(active_selection(&input), (0, 2..2, false));
}

#[test]
fn composition_is_marked_then_committed() {
    let mut input = buffer(&["ab"]);
    input.end();
    input.replace_and_mark_text_in_range(None, "n", None);
    assert_eq!(texts(&input), vec!["abn"]);
    assert_eq!(input.line(0).marked_range(), Some(2..3));
    assert_eq!(input.marked_text_range(), Some(2..3));
    assert_eq!(active_selection(&input), (0, 3..3, false));
    input.replace_and_mark_text_in_range(None, "\u{f1}", Some(0..1));
    assert_eq!(texts(&input), vec!["ab\u{f1}"]);
    assert_eq!(input.line(0).marked_range(), Some(2..4));
    assert_eq!(active_selection(&input), (0, 2..4, false));
    input.replace_text_in_range(None, "\u{f1}o");
    assert_eq!(texts(&input), vec!["ab\u{f1}o"]);
    assert_eq!(input.line(0).marked_range(), None);
    assert_eq!(active_selection(&input), (0, 5..5, false));
}

#[test]
fn unmark_text_keeps_composed_text() {
    let mut input = TextInput::new();
    input.replace_and_mark_text_in_range(None, "ka", None);
    input.unmark_text();
    assert_eq!(input.marked_text_range(), None);
    assert_eq!(texts(&input), vec!["ka"]);
}

#[test]
fn backspace_deletes_composition_first() {
    let mut input = buffer(&["xy"]);
    input.end();
    input.replace_and_mark_text_in_range(None, "ab", None);
    input.backspace();
    assert_eq!(texts(&input), vec!["xy"]);
}

#[test]
fn utf16_views_of_selection_and_text() {
    let mut input = buffer(&["\u{1F600}ab"]);
    input.end();
    input.select_left();
    assert_eq!(input.selected_text_range(), (3..4, true));
    assert_eq!(input.text_for_range(&(0..2)), "\u{1F600}");
    assert_eq!(input.text_for_range(&(3..2)), "a");
    assert_eq!(input.range_to_utf16(&(4..6)), 2..4);
    assert_eq!(input.range_from_utf16(&(2..4)), 4..6);
}

#[test]
fn pointer_click_places_caret_on_clicked_line() {
    let mut input = buffer(&["first", "second"]);
    input.on_mouse_down(1, Some(3), false);
    assert!(input.is_selecting());
    assert_eq!(active_selection(&input), (1, 3..3, false));
    input.on_mouse_move(1, Some(5));
    assert_eq!(active_selection(&input), (1, 3..5, false));
    input.on_mouse_move(1, Some(1));
    assert_eq!(active_selection(&input), (1, 1..3, true));
    input.on_mouse_up();
    assert!(!input.is_selecting());
    input.on_mouse_move(1, Some(6));
    assert_eq!(active_selection(&input), (1, 1..3, true));
}

#[test]
fn pointer_position_is_clamped() {
    let input = buffer(&["ab", "\u{e9}"]);
    assert_eq!(input.index_for_mouse_position(7, Some(9)), (2, 1));
    assert_eq!(input.index_for_mouse_position(1, Some(1)), (0, 1));
    assert_eq!(input.index_for_mouse_position(0, None), (0, 0));
}

#[test]
fn shift_click_extends_selection() {
    let mut input = buffer(&["abcdef"]);
    input.right();
    input.on_mouse_down(0, Some(4), true);
    assert_eq!(active_selection(&input), (0, 1..4, false));
}

#[test]
fn new_line_inserts_without_moving_active_line() {
    let mut input = buffer(&["a", "c"]);
    input.new_line("b".to_string(), 1);
    assert_eq!(texts(&input), vec!["a", "b", "c"]);
    assert_eq!(input.active_line(), 0);
}

#[test]
fn text_runs_split_around_composition() {
    let mut input = buffer(&["abcd"]);
    assert_eq!(input.line(0).text_runs(), vec![(4, false)]);
    input.right();
    input.replace_and_mark_text_in_range(None, "xy", None);
    assert_eq!(input.line(0).text_runs(), vec![(1, false), (2, true), (3, false)]);
    let empty = TextInput::new();
    assert_eq!(empty.line(0).text_runs(), vec![(0, false)]);
}
