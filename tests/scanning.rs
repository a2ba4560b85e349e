use lox_syntax::scanner::Scanner;
use lox_syntax::token::TokenType;

fn scan_text(source: &str) -> (String, String) {
    let mut scanner = Scanner::new(source);
    scanner.scan();
    let mut tokens = String::new();
    scanner.write_tokens(&mut tokens);
    let mut errors = String::new();
    scanner.write_errors(&mut errors);
    (tokens, errors)
}

#[test]
fn empty_input_gives_only_eof() {
    let mut scanner = Scanner::new("");
    scanner.scan();
    assert_eq!(scanner.tokens.len(), 1);
    assert!(matches!(scanner.tokens[0].token_type, TokenType::Eof));
    assert_eq!(scanner.tokens[0].lexeme, "");
    assert!(!scanner.has_errors());
    assert_eq!(scan_text(""), ("EOF  null\n".to_string(), String::new()));
}

#[test]
fn eof_is_last_and_single() {
    let mut scanner = Scanner::new("var x = 1;\n\"oops\n@ print x;");
    scanner.scan();
    let n = scanner.tokens.len();
    assert!(matches!(scanner.tokens[n - 1].token_type, TokenType::Eof));
    for t in &scanner.tokens[..n - 1] {
        assert!(!matches!(t.token_type, TokenType::Eof));
    }
}

#[test]
fn digits_scan_to_integral_number() {
    let mut scanner = Scanner::new("123");
    scanner.scan();
    assert_eq!(scanner.tokens.len(), 2);
    assert_eq!(scanner.tokens[0].lexeme, "123");
    match &scanner.tokens[0].token_type {
        TokenType::Number(d) => {
            assert_eq!(d.whole, "123");
            assert_eq!(d.fraction, "");
        }
        _ => panic!("expected a number"),
    }
    assert_eq!(scan_text("123").0, "NUMBER 123 123.0\nEOF  null\n");
}

#[test]
fn leading_zeros_leave_the_value() {
    assert_eq!(scan_text("007").0, "NUMBER 007 7.0\nEOF  null\n");
    assert_eq!(scan_text("0").0, "NUMBER 0 0.0\nEOF  null\n");
}

#[test]
fn fractional_number_keeps_its_digits() {
    let mut scanner = Scanner::new("3.14159");
    scanner.scan();
    assert_eq!(scanner.tokens.len(), 2);
    assert_eq!(scanner.tokens[0].lexeme, "3.14159");
    assert_eq!(scanner.tokens[0].render(), "NUMBER 3.14159 3.14159");
}

#[test]
fn trailing_zeros_of_fraction_are_dropped() {
    assert_eq!(scan_text("1.50").0, "NUMBER 1.50 1.5\nEOF  null\n");
    assert_eq!(scan_text("2.000").0, "NUMBER 2.000 2.0\nEOF  null\n");
}

#[test]
fn trailing_dot_is_its_own_token() {
    let mut scanner = Scanner::new("42.");
    scanner.scan();
    assert_eq!(scanner.tokens.len(), 3);
    assert_eq!(scanner.tokens[0].lexeme, "42");
    assert_eq!(scanner.tokens[0].render(), "NUMBER 42 42.0");
    assert!(matches!(scanner.tokens[1].token_type, TokenType::Dot));
    assert_eq!(scanner.tokens[1].lexeme, ".");
}

#[test]
fn second_dot_ends_a_number() {
    assert_eq!(
        scan_text("1.2.3").0,
        "NUMBER 1.2 1.2\nDOT . null\nNUMBER 3 3.0\nEOF  null\n"
    );
}

#[test]
fn unterminated_string_is_reported() {
    let mut scanner = Scanner::new("\"unterminated");
    scanner.scan();
    assert_eq!(scanner.tokens.len(), 1);
    assert!(matches!(scanner.tokens[0].token_type, TokenType::Eof));
    assert_eq!(scanner.errors.len(), 1);
    assert_eq!(scanner.errors[0], "[line 1] Error: Unterminated string.");
    assert!(scanner.has_errors());
}

#[test]
fn unterminated_string_on_a_later_line() {
    let (tokens, errors) = scan_text("1\n2\n\"abc\n3");
    assert_eq!(tokens, "NUMBER 1 1.0\nNUMBER 2 2.0\nNUMBER 3 3.0\nEOF  null\n");
    assert_eq!(errors, "[line 3] Error: Unterminated string.\n");
}

#[test]
fn string_literal_token() {
    let mut scanner = Scanner::new("\"hi there\"");
    scanner.scan();
    assert_eq!(scanner.tokens[0].lexeme, "\"hi there\"");
    match &scanner.tokens[0].token_type {
        TokenType::String(s) => assert_eq!(s, "hi there"),
        _ => panic!("expected a string"),
    }
    assert_eq!(scanner.tokens[0].render(), "STRING \"hi there\" hi there");
}

#[test]
fn comment_line_gives_no_tokens() {
    let mut scanner = Scanner::new("// comment\n+");
    scanner.scan();
    assert_eq!(scanner.tokens.len(), 2);
    assert!(matches!(scanner.tokens[0].token_type, TokenType::Plus));
    assert_eq!(scanner.tokens[0].lexeme, "+");
    assert!(!scanner.has_errors());
}

#[test]
fn line_numbers_count_comment_lines() {
    let (tokens, errors) = scan_text("// comment\n@");
    assert_eq!(tokens, "EOF  null\n");
    assert_eq!(errors, "[line 2] Error: Unexpected character: @.\n");
}

#[test]
fn slash_alone_is_a_token() {
    assert_eq!(scan_text("/ 2").0, "SLASH / null\nNUMBER 2 2.0\nEOF  null\n");
}

#[test]
fn bang_equal_and_bang() {
    let mut scanner = Scanner::new("!=");
    scanner.scan();
    assert_eq!(scanner.tokens.len(), 2);
    assert!(matches!(scanner.tokens[0].token_type, TokenType::BangEqual));
    assert_eq!(scanner.tokens[0].lexeme, "!=");
    let mut scanner = Scanner::new("!");
    scanner.scan();
    assert_eq!(scanner.tokens.len(), 2);
    assert!(matches!(scanner.tokens[0].token_type, TokenType::Bang));
    assert_eq!(scanner.tokens[0].lexeme, "!");
}

#[test]
fn operators_and_punctuation() {
    assert_eq!(
        scan_text("({*.,+-;})").0,
        "LEFT_PAREN ( null\nLEFT_BRACE { null\nSTAR * null\nDOT . null\nCOMMA , null\nPLUS + null\nMINUS - null\nSEMICOLON ; null\nRIGHT_BRACE } null\nRIGHT_PAREN ) null\nEOF  null\n"
    );
    assert_eq!(
        scan_text("= == < <= > >= !!=").0,
        "EQUAL = null\nEQUAL_EQUAL == null\nLESS < null\nLESS_EQUAL <= null\nGREATER > null\nGREATER_EQUAL >= null\nBANG ! null\nBANG_EQUAL != null\nEOF  null\n"
    );
}

#[test]
fn keywords_and_identifiers() {
    assert_eq!(
        scan_text("and class else false for fun if nil or print return super this true var while").0,
        "AND and null\nCLASS class null\nELSE else null\nFALSE false null\nFOR for null\nFUN fun null\nIF if null\nNIL nil null\nOR or null\nPRINT print null\nRETURN return null\nSUPER super null\nTHIS this null\nTRUE true null\nVAR var null\nWHILE while null\nEOF  null\n"
    );
    assert_eq!(
        scan_text("_foo bar1 And orchid").0,
        "IDENTIFIER _foo null\nIDENTIFIER bar1 null\nIDENTIFIER And null\nIDENTIFIER orchid null\nEOF  null\n"
    );
}

#[test]
fn unexpected_characters_do_not_stop_scanning() {
    let (tokens, errors) = scan_text(",$(#\t)");
    assert_eq!(tokens, "COMMA , null\nLEFT_PAREN ( null\nRIGHT_PAREN ) null\nEOF  null\n");
    assert_eq!(
        errors,
        "[line 1] Error: Unexpected character: $.\n[line 1] Error: Unexpected character: #.\n"
    );
}

#[test]
fn crlf_line_endings() {
    let (tokens, errors) = scan_text("1\r\n2\r\n");
    assert_eq!(tokens, "NUMBER 1 1.0\nNUMBER 2 2.0\nEOF  null\n");
    assert_eq!(errors, "");
}

#[test]
fn many_lines_number_diagnostics() {
    let mut source = String::new();
    for _ in 0..11 {
        source.push('\n');
    }
    source.push('?');
    let (_, errors) = scan_text(&source);
    assert_eq!(errors, "[line 12] Error: Unexpected character: ?.\n");
}

#[test]
fn rescanning_gives_identical_output() {
    let source = "var a = \"x\";\n1.25 @ (b)\n\"open";
    assert_eq!(scan_text(source), scan_text(source));
    let mut first = Scanner::new(source);
    first.scan();
    let mut second = Scanner::new(source);
    second.scan();
    assert_eq!(first.tokens.len(), second.tokens.len());
    for (a, b) in first.tokens.iter().zip(second.tokens.iter()) {
        assert_eq!(a.render(), b.render());
        assert_eq!(a.lexeme, b.lexeme);
    }
    assert_eq!(first.errors, second.errors);
}
