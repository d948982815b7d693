use textframe::content::Content;
use textframe::frame::empty_rectangle_frame;
use textframe::frame::rectangle_frame;
use textframe::frame::rectangle_frame_with_text;
use textframe::line::Line;
use textframe::rectangle::Rectangle;
use textframe::width::is_fullwidth;

#[test]
fn rectangle_frame_displays_empty_rectangle_when_text_is_empty() {
    let expected = ["+ ─ +", "+ ─ +"].join("\n");
    assert_eq!(rectangle_frame(""), expected);
}

#[test]
fn rectangle_frame_displays_rectangle_with_hyphens_matching_fullwidth_halfwidth_when_text_is_present(
) {
    let expected = ["+ ー-ー-ー-ー-ー- +", "│ あaいbうcえeおo │", "+ ー-ー-ー-ー-ー- +"].join("\n");
    assert_eq!(rectangle_frame("あaいbうcえeおo"), expected);
}

#[test]
fn rectangle_frame_displays_multiple_lines_when_text_contains_newline() {
    let expected = ["+ ーーーーー +", "│ あいうえお │", "│ あいうえお │", "+ ーーーーー +"]
        .join("\n");

    assert_eq!(rectangle_frame("あいうえお\nあいうえお"), expected);
}

#[test]
fn line_remap() {
    let line = Line::new(String::from("aあ"));
    let actual = line.remap_by_width('-', 'ー');

    assert_eq!(Line::new(String::from("-ー")), actual);
}

#[test]
fn line_wrap_with() {
    let line = Line::new(String::from("ab"));
    let actual = line.wrap_with('|');

    assert_eq!(actual, Line::new(String::from("| ab |")));
}

#[test]
fn content_longest_line() {
    let content = Content::new_from_text("abc\nabcd");
    let longest = content.longest_line();

    assert_eq!(longest, Line::new(String::from("abcd")));
}

#[test]
fn empty_frame_has_exactly_two_rows() {
    let framed = rectangle_frame("");
    assert_eq!(framed.lines().count(), 2);
    assert_eq!(framed, empty_rectangle_frame());
}

#[test]
fn frame_has_two_more_rows_than_the_text() {
    assert_eq!(rectangle_frame("abc").lines().count(), 3);
    assert_eq!(rectangle_frame("abc\nabcd").lines().count(), 4);
    assert_eq!(rectangle_frame("a\n\nb").lines().count(), 5);
    assert_eq!(rectangle_frame("a\n").lines().count(), 4);
}

#[test]
fn border_length_matches_longest_line_char_count() {
    let rectangle = Rectangle::new_from_text("abc\nabcd");
    assert_eq!(rectangle.horizontal_border().chars().count(), 4);

    let mixed = Rectangle::new_from_text("あa\nbc");
    assert_eq!(mixed.horizontal_border().chars().count(), 2);
}

#[test]
fn border_glyphs_follow_width_classes() {
    let all_wide = Rectangle::new_from_text("あい");
    assert_eq!(all_wide.horizontal_border(), "ーー");

    let all_narrow = Rectangle::new_from_text("abc");
    assert_eq!(all_narrow.horizontal_border(), "---");

    let mixed = Rectangle::new_from_text("あaい");
    assert_eq!(mixed.horizontal_border(), "ー-ー");
}

#[test]
fn rendering_is_deterministic() {
    let text = "あaいbうcえeおo\nabc";
    assert_eq!(rectangle_frame(text), rectangle_frame(text));
    assert_eq!(rectangle_frame(""), rectangle_frame(""));
}

#[test]
fn tie_break_uses_first_line_of_maximal_char_count() {
    let content = Content::new_from_text("aあ\nbb");
    assert_eq!(content.longest_line(), Line::new(String::from("aあ")));

    let expected = ["+ -ー +", "│ aあ │", "│ bb │", "+ -ー +"].join("\n");
    assert_eq!(rectangle_frame("aあ\nbb"), expected);
}

#[test]
fn is_fullwidth_classifies_characters() {
    assert!(is_fullwidth('あ'));
    assert!(is_fullwidth('ー'));
    assert!(!is_fullwidth('a'));
    assert!(!is_fullwidth('-'));
    assert!(!is_fullwidth('\n'));
}

#[test]
fn count_chars_counts_scalar_values_not_columns() {
    assert_eq!(Line::new(String::from("あa")).count_chars(), 2);
    assert_eq!(Line::new(String::from("")).count_chars(), 0);
}

#[test]
fn line_to_string_returns_the_text() {
    assert_eq!(Line::new(String::from("aあ")).to_string(), "aあ");
}

#[test]
fn content_outputs_wraps_every_row() {
    let content = Content::new_from_text("a\nb");
    assert_eq!(content.outputs(), "│ a │\n│ b │");
}

#[test]
fn splitting_keeps_empty_segments() {
    let content = Content::new_from_text("\na\n");
    assert_eq!(content.outputs(), "│  │\n│ a │\n│  │");
}

#[test]
fn general_path_on_empty_text_keeps_one_empty_row() {
    let expected = ["+  +", "│  │", "+  +"].join("\n");
    assert_eq!(rectangle_frame_with_text(""), expected);
}

#[test]
fn border_row_wraps_border_in_corners() {
    let rectangle = Rectangle::new_from_text("ab");
    assert_eq!(rectangle.outputs_border(), "+ -- +");
    assert_eq!(rectangle.outputs(), "+ -- +\n│ ab │\n+ -- +");
}
