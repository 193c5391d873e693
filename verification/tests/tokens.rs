use lambda_front::token::{tokenize, TokenType};

#[test]
fn single_identifier_token() {
    let tokens = tokenize(b"x").unwrap();
    assert_eq!(tokens.len(), 1);
    assert_eq!(tokens[0].class, TokenType::Identifier);
    assert_eq!(tokens[0].data, "x");
    assert_eq!(tokens[0].pos.line, 1);
    assert_eq!(tokens[0].pos.col, 1);
    assert_eq!(tokens[0].pos.start, 0);
    assert_eq!(tokens[0].pos.end, 0);
    assert!(tokens[0].pos.finished);
    assert!(!tokens[0].pos.last);
}

#[test]
fn empty_buffer_has_no_tokens() {
    let tokens = tokenize(b"").unwrap();
    assert_eq!(tokens.len(), 0);
}

#[test]
fn keyword_both_spellings() {
    let tokens = tokenize(b"fn x").unwrap();
    assert_eq!(tokens.len(), 2);
    assert_eq!(tokens[0].class, TokenType::Keyword);
    assert_eq!(tokens[0].data, "fn");
    assert_eq!(tokens[1].class, TokenType::Identifier);

    let tokens = tokenize(b"\\ x").unwrap();
    assert_eq!(tokens.len(), 2);
    assert_eq!(tokens[0].class, TokenType::Keyword);
    assert_eq!(tokens[0].data, "\\");
    assert_eq!(tokens[0].pos.start, 0);
    assert_eq!(tokens[0].pos.end, 1);
}

#[test]
fn spans_cover_non_whitespace_in_order() {
    // bytes: a ' ' ( b ) \n ' ' c
    let tokens = tokenize(b"a (b)\n c").unwrap();
    let expected = [
        (TokenType::Identifier, "a", 0),
        (TokenType::Parenthesis, "(", 2),
        (TokenType::Identifier, "b", 3),
        (TokenType::Parenthesis, ")", 4),
        (TokenType::Identifier, "c", 7),
    ];
    assert_eq!(tokens.len(), expected.len());
    let mut prev_end = 0;
    for (t, (class, text, start)) in tokens.iter().zip(expected.iter()) {
        assert_eq!(t.class, *class);
        assert_eq!(t.data, *text);
        assert_eq!(t.pos.start, *start);
        // strictly increasing, non-overlapping spans
        assert!(t.pos.start >= prev_end);
        prev_end = t.pos.start + t.data.len();
    }
    // the last token sits on line 2, column 2
    assert_eq!(tokens[4].pos.line, 2);
    assert_eq!(tokens[4].pos.col, 2);
}

#[test]
fn identifier_run_is_maximal() {
    let tokens = tokenize(b"foo(bar baz2)").unwrap();
    let texts: Vec<&str> = tokens.iter().map(|t| t.data.as_str()).collect();
    assert_eq!(texts, vec!["foo", "(", "bar", "baz2", ")"]);
    // identifier tokens store the index of their last byte as the end offset
    assert_eq!(tokens[0].pos.start, 0);
    assert_eq!(tokens[0].pos.end, 2);
    assert_eq!(tokens[3].pos.start, 8);
    assert_eq!(tokens[3].pos.end, 11);
}

#[test]
fn backslash_continues_an_identifier_run() {
    // a backslash only introduces a keyword token at the start of a run
    let tokens = tokenize(b"a\\b \\x").unwrap();
    assert_eq!(tokens.len(), 3);
    assert_eq!(tokens[0].class, TokenType::Identifier);
    assert_eq!(tokens[0].data, "a\\b");
    assert_eq!(tokens[1].class, TokenType::Keyword);
    assert_eq!(tokens[1].data, "\\");
    assert_eq!(tokens[2].class, TokenType::Identifier);
    assert_eq!(tokens[2].data, "x");
}
