use lambda_front::parse::{parse_expr, Node, NodeType};
use lambda_front::token::tokenize;

fn parse(input: &[u8]) -> Result<Node, lambda_front::error::SyntaxError> {
    let tokens = tokenize(input).unwrap();
    let mut i: usize = 0;
    let mut level: usize = 0;
    parse_expr(&tokens, &mut i, false, &mut level)
}

#[test]
fn single_variable() {
    let tree = parse(b"x").unwrap();
    assert_eq!(tree.class, NodeType::Variable);
    assert_eq!(tree.data, "x");
    assert_eq!(tree.nodes.len(), 0);
}

#[test]
fn parentheses_are_transparent_grouping() {
    let tree = parse(b"(x)").unwrap();
    assert_eq!(tree.class, NodeType::Variable);
    assert_eq!(tree.data, "x");
    assert_eq!(tree.nodes.len(), 0);
}

#[test]
fn abstraction_with_backslash() {
    let tree = parse(b"\\x x").unwrap();
    assert_eq!(tree.class, NodeType::Abstraction);
    assert_eq!(tree.data, "x");
    assert_eq!(tree.nodes.len(), 1);
    assert_eq!(tree.nodes[0].class, NodeType::Variable);
    assert_eq!(tree.nodes[0].data, "x");
}

#[test]
fn abstraction_with_fn_keyword() {
    let tree = parse(b"fn y y").unwrap();
    assert_eq!(tree.class, NodeType::Abstraction);
    assert_eq!(tree.data, "y");
    assert_eq!(tree.nodes[0].class, NodeType::Variable);
    assert_eq!(tree.nodes[0].data, "y");
}

#[test]
fn application_folds_left() {
    let tree = parse(b"a b c").unwrap();
    assert_eq!(tree.class, NodeType::Application);
    assert_eq!(tree.nodes.len(), 2);
    let left = &tree.nodes[0];
    let right = &tree.nodes[1];
    assert_eq!(left.class, NodeType::Application);
    assert_eq!(left.nodes[0].class, NodeType::Variable);
    assert_eq!(left.nodes[0].data, "a");
    assert_eq!(left.nodes[1].class, NodeType::Variable);
    assert_eq!(left.nodes[1].data, "b");
    assert_eq!(right.class, NodeType::Variable);
    assert_eq!(right.data, "c");
}

#[test]
fn abstraction_body_extends_right() {
    // a \x. b c parses as a (\x. (b c))
    let tree = parse(b"a \\x b c").unwrap();
    assert_eq!(tree.class, NodeType::Application);
    assert_eq!(tree.nodes[0].class, NodeType::Variable);
    assert_eq!(tree.nodes[0].data, "a");
    let lam = &tree.nodes[1];
    assert_eq!(lam.class, NodeType::Abstraction);
    assert_eq!(lam.data, "x");
    let body = &lam.nodes[0];
    assert_eq!(body.class, NodeType::Application);
    assert_eq!(body.nodes[0].data, "b");
    assert_eq!(body.nodes[1].data, "c");
}

#[test]
fn unclosed_parenthesis_fails_at_end_of_input() {
    let err = parse(b"(").unwrap_err();
    assert_eq!(err.error, "expected ending parenthesis");
    assert!(err.pos.last);
    assert!(!err.pos.finished);
}

#[test]
fn trailing_open_parenthesis_fails_at_end_of_input() {
    let err = parse(b"a b (").unwrap_err();
    assert_eq!(err.error, "expected ending parenthesis");
    assert!(err.pos.last);
}

#[test]
fn close_before_open_fails_at_that_token() {
    let err = parse(b")").unwrap_err();
    assert_eq!(err.error, "ending parentheses before starting them");
    assert_eq!(err.pos.start, 0);
    assert_eq!(err.pos.line, 1);
    assert_eq!(err.pos.col, 1);
}

#[test]
fn close_before_open_after_identifiers() {
    let err = parse(b"a )").unwrap_err();
    assert_eq!(err.error, "ending parentheses before starting them");
    assert_eq!(err.pos.start, 2);
    assert_eq!(err.pos.col, 3);
}

#[test]
fn empty_parentheses_fail() {
    let err = parse(b"()").unwrap_err();
    assert_eq!(err.error, "no expression inside parentheses");
    assert_eq!(err.pos.start, 1);
}

#[test]
fn empty_parentheses_fail_even_with_trailing_atom() {
    // the end sentinel from the closed empty group must not be folded into
    // an application with the following atom
    let err = parse(b"() x").unwrap_err();
    assert_eq!(err.error, "no expression inside parentheses");
    assert_eq!(err.pos.start, 1);
}

#[test]
fn missing_name_at_end_of_input() {
    let err = parse(b"\\").unwrap_err();
    assert_eq!(err.error, "expected name in definition");
    assert!(err.pos.last);
}

#[test]
fn missing_name_wrong_token_kind() {
    let err = parse(b"\\ (x)").unwrap_err();
    assert_eq!(err.error, "expexted name in definition");
    assert_eq!(err.pos.start, 2);
}

#[test]
fn missing_abstraction_body() {
    let err = parse(b"\\x").unwrap_err();
    assert_eq!(err.error, "expected body to abstraction");
    assert!(err.pos.last);
}

#[test]
fn empty_input_yields_end_sentinel() {
    let tree = parse(b"").unwrap();
    assert_eq!(tree.class, NodeType::End);
    assert_eq!(tree.data, "");
    assert_eq!(tree.nodes.len(), 0);
    assert!(tree.token.pos.last);
}

#[test]
fn abstraction_inside_group_applied() {
    // the lambda body's argument fold consumes the group's `)` and then
    // keeps folding: (\x b) c parses as ((\x b) c)
    let tree = parse(b"(\\x b) c").unwrap();
    assert_eq!(tree.class, NodeType::Application);
    let lam = &tree.nodes[0];
    assert_eq!(lam.class, NodeType::Abstraction);
    assert_eq!(lam.data, "x");
    assert_eq!(lam.nodes[0].class, NodeType::Variable);
    assert_eq!(lam.nodes[0].data, "b");
    assert_eq!(tree.nodes[1].class, NodeType::Variable);
    assert_eq!(tree.nodes[1].data, "c");
}

#[test]
fn nested_grouping() {
    let tree = parse(b"((a (b c)))").unwrap();
    assert_eq!(tree.class, NodeType::Application);
    assert_eq!(tree.nodes[0].data, "a");
    let inner = &tree.nodes[1];
    assert_eq!(inner.class, NodeType::Application);
    assert_eq!(inner.nodes[0].data, "b");
    assert_eq!(inner.nodes[1].data, "c");
}
