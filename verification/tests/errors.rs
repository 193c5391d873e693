use lambda_front::error::{Error, FatalError, ReadError, SyntaxError};
use lambda_front::parse::parse_expr;
use lambda_front::token::tokenize;
use lambda_front::utils::both;

#[test]
fn fatal_error_renders_plain() {
    let e = FatalError { error: "no input files".to_string() };
    assert_eq!(e.as_str(None), "Fatal Error: no input files");
}

#[test]
fn read_error_renders_plain() {
    let e = ReadError { error: "could not open file `x`".to_string() };
    assert_eq!(e.as_str(None), "Read Error: could not open file `x`");
}

#[test]
fn syntax_error_without_buffer_renders_plain() {
    let e = SyntaxError::create("broken".to_string(), Some(0), Some(1), false, None);
    assert!(!e.pos.finished);
    assert_eq!(e.as_str(None), "Syntax Error: broken");
}

#[test]
fn syntax_error_with_buffer_renders_snippet() {
    let buf: &[u8] = b")";
    let tokens = tokenize(buf).unwrap();
    let mut i: usize = 0;
    let mut level: usize = 0;
    let err = parse_expr(&tokens, &mut i, false, &mut level).unwrap_err();
    let rendered = err.as_str(Some(buf));
    assert_eq!(
        rendered,
        "Syntax Error: ending parentheses before starting them at [Ln 1, Cl 1]\n`)`\n ^"
    );
}

#[test]
fn snippet_shows_the_offending_line_only() {
    let buf: &[u8] = b"a b\nc ) d\ne";
    let tokens = tokenize(buf).unwrap();
    let mut i: usize = 0;
    let mut level: usize = 0;
    let err = parse_expr(&tokens, &mut i, false, &mut level).unwrap_err();
    assert_eq!(err.error, "ending parentheses before starting them");
    let rendered = err.as_str(Some(buf));
    // the terminating newline belongs to the line it ends, so the printed
    // line slice carries it
    assert_eq!(
        rendered,
        "Syntax Error: ending parentheses before starting them at [Ln 2, Cl 3]\n`c ) d\n`\n   ^"
    );
}

#[test]
fn deferred_end_of_input_error_resolves_at_render_time() {
    let buf: &[u8] = b"(a";
    let tokens = tokenize(buf).unwrap();
    let mut i: usize = 0;
    let mut level: usize = 0;
    let err = parse_expr(&tokens, &mut i, false, &mut level).unwrap_err();
    assert_eq!(err.error, "expected ending parenthesis");
    assert!(err.pos.last);
    assert!(!err.pos.finished);
    let rendered = err.as_str(Some(buf));
    // the end-of-input position points just past the content: column 3
    assert_eq!(
        rendered,
        "Syntax Error: expected ending parenthesis at [Ln 1, Cl 3]\n`(a`\n   ^"
    );
}

#[test]
fn multi_digit_column_in_header() {
    let buf: &[u8] = b"abcdefghijk )";
    let tokens = tokenize(buf).unwrap();
    let mut i: usize = 0;
    let mut level: usize = 0;
    let err = parse_expr(&tokens, &mut i, false, &mut level).unwrap_err();
    let rendered = err.as_str(Some(buf));
    assert!(rendered.contains("[Ln 1, Cl 13]"));
}

#[test]
fn create_with_buffer_resolves_eagerly() {
    let e = SyntaxError::create("oops".to_string(), Some(4), Some(5), false, Some(b"ab\ncd"));
    assert!(e.pos.finished);
    assert_eq!(e.pos.line, 2);
    assert_eq!(e.pos.col, 2);
    assert_eq!(e.pos.start, 4);
    assert_eq!(e.pos.end, 5);
}

#[test]
fn create_deferred_end_of_input() {
    let e = SyntaxError::create("ran out".to_string(), None, None, true, None);
    assert!(e.pos.last);
    assert!(!e.pos.finished);
    assert_eq!(e.pos.start, 0);
    assert_eq!(e.pos.end, 0);
}

#[test]
fn caret_span_matches_token_width() {
    // the identifier token `abc` spans three bytes; its stored end offset is
    // the index of its last byte, so the underline is end - start = 2 carets
    let e = SyntaxError::create("w".to_string(), Some(0), Some(2), false, Some(b"abc"));
    let rendered = e.as_str(Some(b"abc"));
    assert_eq!(rendered, "Syntax Error: w at [Ln 1, Cl 1]\n`abc`\n ^^");
}

#[test]
fn both_short_circuits() {
    assert!(both(|| true, || true));
    assert!(!both(|| true, || false));
    assert!(!both(|| false, || panic!("must not be evaluated")));
}
