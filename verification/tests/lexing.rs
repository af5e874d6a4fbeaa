use cflox::parser::diagnostic::Severity;
use cflox::parser::lexing::{scan, scan_finishes_on};
use cflox::parser::node::Span;
use cflox::parser::token::TokenKind;

#[test]
fn token_indexes() {
    let (tokens, _) = scan("8 - - 2");
    let eight = tokens.get(0).unwrap().span;
    assert_eq!(eight.start, 0);
    assert_eq!(eight.end, 1);

    let minus = tokens.get(1).unwrap().span;
    assert_eq!(minus.start, 2);
    assert_eq!(minus.end, 3);

    let minus2 = tokens.get(2).unwrap().span;
    assert_eq!(minus2.start, 4);
    assert_eq!(minus2.end, 5);
}

#[test]
fn adjacent_tokens_have_independent_spans() {
    // With no whitespace between tokens, each span must start at its own
    // token rather than accumulating from the previous token's start.
    let (tokens, _) = scan("a=a");
    assert_eq!(tokens[0].span, Span { start: 0, end: 1 }); // a
    assert_eq!(tokens[1].span, Span { start: 1, end: 2 }); // =
    assert_eq!(tokens[2].span, Span { start: 2, end: 3 }); // a

    // Multi-char operators glued to their operands stay correct too.
    let (tokens, _) = scan("1==2");
    assert_eq!(tokens[0].span, Span { start: 0, end: 1 }); // 1
    assert_eq!(tokens[1].span, Span { start: 1, end: 3 }); // ==
    assert_eq!(tokens[2].span, Span { start: 3, end: 4 }); // 2
}

#[test]
fn multichar_token_indexes() {
    let (tokens, _) = scan("   \"hello \" ");
    let token = &tokens[0];
    assert_eq!(token.span, Span { start: 3, end: 11 });
    assert_eq!(token.node, TokenKind::String("hello ".into()));
}

#[test]
fn comments_and_spans() {
    let source = r#"
hello
// this is a comment
// and so is this!
true
            "#;
    let (tokens, diagnostics) = scan(source);
    assert!(diagnostics.is_empty());
    let hello = &tokens[0];
    let lit_true = &tokens[1];
    assert_eq!(hello.span.in_source(source), "hello");
    assert_eq!(lit_true.span.in_source(source), "true");
}

#[test]
fn unclosed_string() {
    let source = "   nil 4 + \"a string that never ends ";
    let (tokens, diagnostics) = scan(source);
    assert_eq!(diagnostics.len(), 1);
    let diag = &diagnostics[0];
    assert_eq!(diag.severity, Severity::Error);
    assert_eq!(diag.message, "unexpected end of file");
    assert_eq!(diag.span.in_source(source), "\"a string that never ends ");

    let last_token = tokens.last().unwrap();
    assert_eq!(last_token.node, TokenKind::Plus);
}

#[test]
fn keywords_numbers_and_identifiers() {
    let (tokens, diagnostics) = scan("var x_1 = 12.5.3 or nil;");
    assert!(diagnostics.is_empty());
    let kinds: Vec<TokenKind> = tokens.iter().map(|t| t.node.clone()).collect();
    assert_eq!(
        kinds,
        vec![
            TokenKind::Var,
            TokenKind::Identifier("x_1".into()),
            TokenKind::Equal,
            TokenKind::Number("12.5".into()),
            TokenKind::Dot,
            TokenKind::Number("3".into()),
            TokenKind::Or,
            TokenKind::Nil,
            TokenKind::Semicolon,
        ]
    );
}

#[test]
fn unexpected_char_is_reported_and_skipped() {
    let (tokens, diagnostics) = scan("1 @ 2");
    assert_eq!(diagnostics.len(), 1);
    assert_eq!(diagnostics[0].message, "unexpected input char: '@'");
    assert_eq!(diagnostics[0].span, Span { start: 2, end: 3 });
    assert_eq!(tokens.len(), 2);
}

#[test]
fn spans_count_bytes() {
    // 'é' takes two bytes, so the identifier after it starts at byte 4.
    let (tokens, _) = scan("\"é\" ab");
    assert_eq!(tokens[0].span, Span { start: 0, end: 4 });
    assert_eq!(tokens[1].span, Span { start: 5, end: 7 });
    assert_eq!(tokens[1].span.in_source("\"é\" ab"), "ab");
}

#[test]
fn two_char_operators() {
    let (tokens, _) = scan("!= ! <= < >= > == = / // comment\n");
    let kinds: Vec<TokenKind> = tokens.iter().map(|t| t.node.clone()).collect();
    assert_eq!(
        kinds,
        vec![
            TokenKind::BangEqual,
            TokenKind::Bang,
            TokenKind::LessEqual,
            TokenKind::Less,
            TokenKind::GreaterEqual,
            TokenKind::Greater,
            TokenKind::EqualEqual,
            TokenKind::Equal,
            TokenKind::Slash,
        ]
    );
}

#[test]
fn scanning_stops_only_where_a_comment_has_a_newline() {
    assert!(scan_finishes_on(""));
    assert!(scan_finishes_on("print 1; // done\n"));
    assert!(scan_finishes_on("a / b"));
    assert!(scan_finishes_on("\"// inside a string\""));
    assert!(scan_finishes_on("\"never closed // "));
    assert!(!scan_finishes_on("print 1; // done"));
    assert!(!scan_finishes_on("//"));
}
