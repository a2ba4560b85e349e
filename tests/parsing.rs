use lox_syntax::parser::Parser;
use lox_syntax::scanner::Scanner;

fn parse_text(source: &str) -> (Parser, String) {
    let mut scanner = Scanner::new(source);
    scanner.scan();
    let mut parser = Parser::new();
    parser.parse_peekable(&scanner.tokens);
    let mut out = String::new();
    parser.print_expressions(&mut out);
    (parser, out)
}

#[test]
fn three_literals() {
    let (parser, out) = parse_text("true \"hi\" 123");
    assert_eq!(parser.expressions.len(), 3);
    assert!(parser.errors.is_empty());
    assert_eq!(out, "true\nhi\n123.0\n");
    assert_eq!(parser.expressions[2].render(), "123.0");
}

#[test]
fn other_literals() {
    let (_, out) = parse_text("false nil 2.5");
    assert_eq!(out, "false\nnil\n2.5\n");
}

#[test]
fn non_literal_tokens_are_skipped() {
    let (parser, out) = parse_text("x + 1");
    assert_eq!(out, "1.0\n");
    assert!(parser.errors.is_empty());
}

#[test]
fn single_group() {
    let (parser, out) = parse_text("(true)");
    assert_eq!(parser.expressions.len(), 1);
    assert_eq!(out, "(group true)\n");
}

#[test]
fn nested_groups() {
    let (_, out) = parse_text("((\"foo\"))");
    assert_eq!(out, "(group (group foo))\n");
}

#[test]
fn group_keeps_last_item() {
    let (_, out) = parse_text("(1 2)");
    assert_eq!(out, "(group 2.0)\n");
}

#[test]
fn empty_group() {
    let (parser, out) = parse_text("()");
    assert_eq!(parser.expressions.len(), 0);
    assert_eq!(parser.errors, vec!["Error: Empty group".to_string()]);
    assert_eq!(out, "");
}

#[test]
fn unmatched_group() {
    let (parser, _) = parse_text("(true");
    assert_eq!(parser.expressions.len(), 0);
    assert_eq!(parser.errors, vec!["Error: Unmatched parentheses.".to_string()]);
}

#[test]
fn inner_error_ends_outer_group() {
    let (parser, out) = parse_text("(() nil) 4");
    assert_eq!(parser.errors, vec!["Error: Empty group".to_string()]);
    assert_eq!(out, "nil\n4.0\n");
}

#[test]
fn parsing_continues_after_a_group() {
    let (parser, out) = parse_text("(nil) 7");
    assert!(parser.errors.is_empty());
    assert_eq!(out, "(group nil)\n7.0\n");
}
