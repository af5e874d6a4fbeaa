use cflox::parser::span::Span;

#[test]
fn span_from_a_position_is_empty() {
    assert_eq!(Span::from(4), Span { start: 4, end: 4 });
}

#[test]
fn in_source_counts_bytes() {
    assert_eq!(Span { start: 6, end: 9 }.in_source("café bar"), "bar");
    assert_eq!(Span { start: 0, end: 5 }.in_source("café bar"), "café");
}
