use rustium_cli::{extract_title, parse_tags, RustiumError};

#[test]
fn title_text_after_marker() {
    let doc = "# My Title\n\nsome body";
    assert_eq!(extract_title(doc), Some(String::from("My Title")));
}

#[test]
fn title_absent() {
    let doc = "no heading here\nplain text";
    assert_eq!(extract_title(doc), None);
}

#[test]
fn subtitle_is_not_a_title() {
    let doc = "## Section\nbody";
    assert_eq!(extract_title(doc), None);
}

#[test]
fn title_first_match_wins() {
    let doc = "intro\n# Real Title\n# Second Title";
    assert_eq!(extract_title(doc), Some(String::from("Real Title")));
}

#[test]
fn title_marker_needs_space() {
    assert_eq!(extract_title("#nospace"), None);
}

#[test]
fn title_line_loses_carriage_return() {
    assert_eq!(extract_title("# My Title\r\nbody"), Some(String::from("My Title")));
}

#[test]
fn title_marker_stripped_once() {
    assert_eq!(extract_title("# # twice"), Some(String::from("# twice")));
}

#[test]
fn tags_split_and_trimmed() {
    let tags = parse_tags("rust, verus ,tools");
    assert_eq!(tags, vec![
        String::from("rust"),
        String::from("verus"),
        String::from("tools"),
    ]);
}

#[test]
fn tags_empty_string_gives_one_empty_tag() {
    assert_eq!(parse_tags(""), vec![String::from("")]);
}

#[test]
fn error_messages() {
    let io = RustiumError::Io(String::from("boom"));
    assert_eq!(io.message(), "IO error: boom");
    let api = RustiumError::MediumApi(String::from("down"));
    assert_eq!(api.message(), "Medium API error: down");
}
