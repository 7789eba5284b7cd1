use side_panel::text::offset_into_line;

#[test]
fn offset_counts_line_breaks_before_it() {
    let text = "ab\ncd\n\nef";
    assert_eq!(offset_into_line(text, 0), 0);
    assert_eq!(offset_into_line(text, 3), 1);
    assert_eq!(offset_into_line(text, 7), 3);
    assert_eq!(offset_into_line(text, 100), 3);
}

#[test]
fn offset_inside_a_character_counts_all() {
    let text = "\u{e9}\nx\n";
    assert_eq!(offset_into_line(text, 1), 2);
    assert_eq!(offset_into_line(text, 2), 0);
    assert_eq!(offset_into_line(text, 3), 1);
}
