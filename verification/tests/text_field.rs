use oxide_ssh::text_field::{
    nearest_grapheme_boundary, next_boundary, offset_from_utf16, offset_to_utf16,
    previous_boundary, range_from_utf16, range_to_utf16, sanitize_text, DisplayMapping,
    TextFieldState,
};
use oxide_ssh::text_field::{field_runs, FieldRun};

#[test]
fn utf16_offsets_convert_to_bytes_and_back() {
    let text = "a😀b";
    assert_eq!(offset_from_utf16(text, 0), 0);
    assert_eq!(offset_from_utf16(text, 1), 1);
    assert_eq!(offset_from_utf16(text, 2), 5);
    assert_eq!(offset_from_utf16(text, 3), 5);
    assert_eq!(offset_from_utf16(text, 4), 6);
    assert_eq!(offset_from_utf16(text, 99), 6);
    assert_eq!(offset_to_utf16(text, 1), 1);
    assert_eq!(offset_to_utf16(text, 5), 3);
    assert_eq!(offset_to_utf16(text, 6), 4);
    assert_eq!(range_from_utf16(text, 4, 1), (1, 6));
    assert_eq!(range_to_utf16("你好", 6, 0), (0, 2));
}

#[test]
fn line_breaks_become_spaces() {
    assert_eq!(sanitize_text("one\r\ntwo\nthree"), "one  two three");
    assert_eq!(sanitize_text("plain"), "plain");
}

#[test]
fn grapheme_boundaries_are_found_around_an_offset() {
    // "e" + combining acute accent is one grapheme of three bytes.
    let starts = vec![0, 3, 4];
    assert_eq!(previous_boundary(&starts, 3), 0);
    assert_eq!(previous_boundary(&starts, 4), 3);
    assert_eq!(previous_boundary(&starts, 0), 0);
    assert_eq!(next_boundary(&starts, 5, 0), 3);
    assert_eq!(next_boundary(&starts, 5, 4), 5);
    assert_eq!(nearest_grapheme_boundary(&starts, 5, 1), 0);
    assert_eq!(nearest_grapheme_boundary(&starts, 5, 2), 3);
    assert_eq!(nearest_grapheme_boundary(&starts, 5, 3), 3);
    assert_eq!(nearest_grapheme_boundary(&starts, 5, 9), 5);
    assert_eq!(nearest_grapheme_boundary(&starts, 0, 2), 0);
}

#[test]
fn masked_mapping_shows_one_bullet_per_grapheme() {
    let content = "e\u{301}x";
    let mapping = DisplayMapping::new(content, true);
    assert_eq!(mapping.display_text(content, "placeholder"), "••");
    assert_eq!(mapping.content_to_display(3), 3);
    assert_eq!(mapping.content_to_display(2), 0);
    assert_eq!(mapping.content_to_display(4), 6);
    assert_eq!(mapping.display_to_content(3), 3);
    assert_eq!(mapping.display_to_content(5), 3);
    assert_eq!(mapping.display_to_content(6), 4);

    let empty = DisplayMapping::new("", true);
    assert_eq!(empty.display_text("", "type here"), "type here");
    assert_eq!(empty.content_to_display(7), 0);
    let plain = DisplayMapping::new("abc", false);
    assert_eq!(plain.display_text("abc", "p"), "abc");
    assert_eq!(plain.display_to_content(2), 2);
}

#[test]
fn masking_never_changes_the_value() {
    let mut field = TextFieldState::new("Password", "s3cret", false);
    field.set_masked(true);
    assert_eq!(field.value(), "s3cret");
    assert!(field.is_masked());
    assert_eq!(field.display_mapping().display_text(field.value(), field.placeholder()), "••••••");
}

#[test]
fn typing_replaces_the_selection_and_moves_the_cursor() {
    let mut field = TextFieldState::new("", "hello", false);
    assert_eq!(field.selected_range(), (5, 5));
    field.select_left();
    field.select_left();
    assert_eq!(field.selected_range(), (3, 5));
    assert_eq!(field.selected_text(), "lo");
    field.replace_text_in_range(None, "p!\n");
    assert_eq!(field.value(), "help! ");
    assert_eq!(field.selected_range(), (6, 6));
    field.backspace();
    assert_eq!(field.value(), "help!");
    field.home();
    field.delete();
    assert_eq!(field.value(), "elp!");
    field.end();
    assert_eq!(field.cursor_offset(), 4);
}

#[test]
fn arrows_move_by_whole_graphemes() {
    let mut field = TextFieldState::new("", "a😀b", false);
    field.left();
    assert_eq!(field.cursor_offset(), 5);
    field.left();
    assert_eq!(field.cursor_offset(), 1);
    field.right();
    assert_eq!(field.cursor_offset(), 5);
    field.select_all();
    assert_eq!(field.selected_range(), (0, 6));
    field.right();
    assert_eq!(field.selected_range(), (6, 6));
    field.move_to(3);
    assert_eq!(field.cursor_offset(), 1);
    field.move_to(4);
    assert_eq!(field.cursor_offset(), 5);
    field.select_home();
    assert_eq!(field.selected_range(), (0, 5));
    assert_eq!(field.selected_text_range(), ((0, 3), true));
}

#[test]
fn composition_marks_the_new_text() {
    let mut field = TextFieldState::new("", "ab", false);
    field.move_to(1);
    field.replace_and_mark_text_in_range(None, "ni", Some((2, 2)));
    assert_eq!(field.value(), "anib");
    assert_eq!(field.marked_text_range(), Some((1, 3)));
    assert_eq!(field.selected_range(), (3, 3));
    field.replace_and_mark_text_in_range(None, "你", None);
    assert_eq!(field.value(), "a你b");
    assert_eq!(field.marked_text_range(), Some((1, 2)));
    assert_eq!(field.text_for_range(1, 2), ("你".to_string(), (1, 2)));
    assert!(field.unmark_text());
    assert!(!field.unmark_text());
    field.replace_text_in_range(Some((0, 1)), "A");
    assert_eq!(field.value(), "A你b");
}

#[test]
fn set_value_moves_the_cursor_to_the_end() {
    let mut field = TextFieldState::new("hint", "", true);
    field.set_value("line\nbreak");
    assert_eq!(field.value(), "line break");
    assert_eq!(field.cursor_offset(), 10);
    field.set_placeholder("a\rb");
    assert_eq!(field.placeholder(), "a b");
    assert_eq!(field.len(), 10);
}

#[test]
fn field_runs_underline_only_the_marked_text() {
    let plain = |len| FieldRun { len, marked: false };
    let marked = |len| FieldRun { len, marked: true };
    assert_eq!(field_runs(10, None), vec![plain(10)]);
    assert_eq!(field_runs(0, None), vec![plain(0)]);
    assert_eq!(field_runs(10, Some((3, 7))), vec![plain(3), marked(4), plain(3)]);
    assert_eq!(field_runs(10, Some((0, 4))), vec![marked(4), plain(6)]);
    assert_eq!(field_runs(10, Some((6, 10))), vec![plain(6), marked(4)]);
    assert_eq!(field_runs(10, Some((5, 5))), vec![plain(5), plain(5)]);
    assert_eq!(field_runs(4, Some((6, 2))), vec![plain(6), plain(2)]);
}
