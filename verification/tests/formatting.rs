use rustium_cli::{output_file_name, MarkdownFormatter};

const ESC: char = '\u{1b}';

#[test]
fn heading_level_one_glyph() {
    let out = MarkdownFormatter::convert_markdown_to_medium_format("# Heading");
    assert_eq!(out, "\u{1f4dd} Heading");
}

#[test]
fn heading_level_two_glyph() {
    let out = MarkdownFormatter::convert_markdown_to_medium_format("## Section");
    assert_eq!(out, "\u{1f4cc} Section");
}

#[test]
fn heading_level_three_glyph() {
    let out = MarkdownFormatter::convert_markdown_to_medium_format("### Deep");
    assert_eq!(out, "\u{1f538} Deep");
}

#[test]
fn heading_levels_mixed() {
    let out = MarkdownFormatter::convert_markdown_to_medium_format("# A\n## B\n### C");
    assert_eq!(out, "\u{1f4dd} A\n\u{1f4cc} B\n\u{1f538} C");
}

#[test]
fn dash_bullet_everywhere() {
    let out = MarkdownFormatter::convert_markdown_to_medium_format("- item\ntext a - b");
    assert_eq!(out, "\u{2022} item\ntext a \u{2022} b");
}

#[test]
fn star_bullet_keeps_indent() {
    let out = MarkdownFormatter::convert_markdown_to_medium_format("  * item");
    assert_eq!(out, "  \u{2022} item");
}

#[test]
fn star_bullet_leading_only() {
    let out = MarkdownFormatter::convert_markdown_to_medium_format(" * a * b");
    assert_eq!(out, " \u{2022} a * b");
}

#[test]
fn star_without_content_unaffected() {
    let out = MarkdownFormatter::convert_markdown_to_medium_format("* ");
    assert_eq!(out, "* ");
    let out = MarkdownFormatter::convert_markdown_to_medium_format("  *   ");
    assert_eq!(out, "  *   ");
}

#[test]
fn conversion_drops_trailing_newline() {
    let out = MarkdownFormatter::convert_markdown_to_medium_format("plain\n");
    assert_eq!(out, "plain");
}

#[test]
fn conversion_normalizes_crlf() {
    let out = MarkdownFormatter::convert_markdown_to_medium_format("# T\r\nbody");
    assert_eq!(out, "\u{1f4dd} T\nbody");
}

#[test]
fn bold_text_unaffected() {
    let out = MarkdownFormatter::convert_markdown_to_medium_format("**bold** text");
    assert_eq!(out, "**bold** text");
}

#[test]
fn renumber_within_run() {
    let out = MarkdownFormatter::convert_markdown_to_medium_format("5. a\n9. b\n1. c");
    assert_eq!(out, "1. a\n2. b\n3. c");
}

#[test]
fn renumber_resets_after_break() {
    let out = MarkdownFormatter::convert_markdown_to_medium_format("1. a\n\n1. b");
    assert_eq!(out, "1. a\n\n1. b");
}

#[test]
fn renumber_reaches_two_digits() {
    let mut input = String::new();
    let mut expected = String::new();
    for n in 1..=11u32 {
        input.push_str("1. x\n");
        expected.push_str(&format!("{}. x\n", n));
    }
    input.push_str("end");
    expected.push_str("end");
    let out = MarkdownFormatter::convert_markdown_to_medium_format(&input);
    assert_eq!(out, expected);
}

#[test]
fn two_digit_prefix_not_a_list_item() {
    let out = MarkdownFormatter::convert_markdown_to_medium_format("12. x");
    assert_eq!(out, "12. x");
}

#[test]
fn renumbered_item_drops_surrounding_whitespace() {
    let out = MarkdownFormatter::convert_markdown_to_medium_format("  3. x  ");
    assert_eq!(out, "1. x");
}

#[test]
fn strip_removes_styling_sequence() {
    let styled = format!("{}[1;96mTitle", ESC);
    assert_eq!(MarkdownFormatter::strip_ansi_codes(&styled), "Title");
}

#[test]
fn strip_ends_sequence_at_first_m() {
    let styled = format!("{}1;96mTitle", ESC);
    assert_eq!(MarkdownFormatter::strip_ansi_codes(&styled), "Title");
}

#[test]
fn strip_removes_several_sequences() {
    let styled = format!("{e}[94mA{e}[0mB", e = ESC);
    assert_eq!(MarkdownFormatter::strip_ansi_codes(&styled), "AB");
}

#[test]
fn strip_leaves_unterminated_escape() {
    let text = format!("{}abc", ESC);
    assert_eq!(MarkdownFormatter::strip_ansi_codes(&text), text);
}

#[test]
fn strip_does_not_close_across_lines() {
    let text = format!("x{}[9\nmz", ESC);
    assert_eq!(MarkdownFormatter::strip_ansi_codes(&text), text);
}

#[test]
fn strip_drops_trailing_newline() {
    assert_eq!(MarkdownFormatter::strip_ansi_codes("a\n"), "a");
}

#[test]
fn strip_normalizes_crlf() {
    assert_eq!(MarkdownFormatter::strip_ansi_codes("a\r\nb"), "a\nb");
}

#[test]
fn format_styled_output_exact() {
    let tags = vec![String::from("a"), String::from("b")];
    let out = MarkdownFormatter::format_for_medium("# T\nbody", "My", &tags);
    let expected = format!(
        "{e}[1;96mMy{e}[0m\n\n\u{1f3f7}\u{fe0f}  Tags: {e}[94ma, b{e}[0m\n\n{e}[97m{sep}{e}[0m\n\n\u{1f4dd} T\nbody",
        e = ESC,
        sep = "\u{2500}".repeat(50),
    );
    assert_eq!(out, expected);
}

#[test]
fn format_empty_tags_has_no_tags_line() {
    let out = MarkdownFormatter::format_for_medium("body", "T", &Vec::new());
    assert!(!out.contains("Tags:"));
    let expected = format!(
        "{e}[1;96mT{e}[0m\n\n{e}[97m{sep}{e}[0m\n\nbody",
        e = ESC,
        sep = "\u{2500}".repeat(50),
    );
    assert_eq!(out, expected);
}

#[test]
fn round_trip_strips_every_escape() {
    let tags = vec![String::from("rust"), String::from("cli")];
    let doc = "# Title\n\n- point\n1. one\n2. two";
    let styled = MarkdownFormatter::format_for_medium(doc, "Title", &tags);
    let clean = MarkdownFormatter::strip_ansi_codes(&styled);
    assert!(!clean.contains(ESC));
    let expected = format!(
        "Title\n\n\u{1f3f7}\u{fe0f}  Tags: rust, cli\n\n{}\n\n\u{1f4dd} Title\n\n\u{2022} point\n1. one\n2. two",
        "\u{2500}".repeat(50),
    );
    assert_eq!(clean, expected);
}

#[test]
fn round_trip_with_empty_tags() {
    let styled = MarkdownFormatter::format_for_medium("body", "T", &Vec::new());
    let clean = MarkdownFormatter::strip_ansi_codes(&styled);
    let expected = format!("T\n\n{}\n\nbody", "\u{2500}".repeat(50));
    assert_eq!(clean, expected);
    assert!(!clean.contains("Tags:"));
}

#[test]
fn output_file_name_appends_suffix() {
    assert_eq!(output_file_name("post"), "post_medium.txt");
}
