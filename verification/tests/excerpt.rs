use end_planner::excerpt::render_span_error;

#[test]
fn render_span_error_uses_line_and_column_when_source_is_available() {
    let src = "[[outposts]]\nkey = \"Dup\"\n";
    let span = src.find("Dup").expect("must find key");
    let rendered = render_span_error(
        "duplicate outpost key `Dup` in aic.toml".to_string(),
        Some(&(span..span + 3)),
        Some(src),
    );

    assert!(
        rendered.contains("line 2, column 8"),
        "rendered output: {rendered}"
    );
    assert!(
        rendered.contains("2 | key = \"Dup\""),
        "rendered output: {rendered}"
    );
    assert!(rendered.contains("^^^"), "rendered output: {rendered}");
}

#[test]
fn render_span_error_falls_back_to_byte_span_without_source() {
    let rendered = render_span_error(
        "unknown item `X` in aic.toml".to_string(),
        Some(&(8..9)),
        None,
    );
    assert!(
        rendered.ends_with("span=8..9"),
        "rendered output: {rendered}"
    );
}

#[test]
fn render_span_error_handles_non_char_boundary_span() {
    let src = "v = \"\u{4E2D}\"\n";
    let ch = '\u{4E2D}';
    let span_start = src.find('\u{4E2D}').expect("must find character");
    let rendered = render_span_error(
        "unknown item `X` in aic.toml".to_string(),
        Some(&(span_start + 1..span_start + 2)),
        Some(src),
    );

    assert!(
        rendered.contains("line 1, column 6"),
        "rendered output: {rendered}"
    );
    assert!(
        rendered.contains(format!("1 | v = \"{ch}\"").as_str()),
        "rendered output: {rendered}"
    );
    assert!(rendered.contains("^"), "rendered output: {rendered}");
}

#[test]
fn render_span_error_without_span_is_the_base() {
    let rendered = render_span_error("plain".to_string(), None, Some("abc"));
    assert_eq!(rendered, "plain");
}

#[test]
fn render_span_error_exact_layout() {
    let src = "a = 1\nbb = 2\n";
    let rendered = render_span_error("E".to_string(), Some(&(6..8)), Some(src));
    assert_eq!(rendered, "E at line 2, column 1\n  |\n2 | bb = 2\n  | ^^");
}

#[test]
fn render_span_error_empty_source_falls_back() {
    let rendered = render_span_error("E".to_string(), Some(&(0..0)), Some(""));
    assert_eq!(rendered, "E, span=0..0");
}
