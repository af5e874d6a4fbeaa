use cflox::parser::diagnostic::{has_error, Diagnostic, Severity};
use cflox::parser::span::Span;

#[test]
fn renders_line_and_squigglies() {
    // span covers the second `a` (the initializer) on line 3.
    let source = "var x = 1;\nvar y = 2;\nvar a = a;";
    // char offset of the final `a`:
    let start = source.char_indices().rev().nth(1).unwrap().0;
    let span = Span {
        start,
        end: start + 1,
    };
    let diag = Diagnostic::error(span, "Can't read local variable in its own initializer.");

    let out = diag.render(source, false);
    let lines: Vec<&str> = out.lines().collect();

    // Header carries the severity and message.
    assert_eq!(
        lines[0],
        "error: Can't read local variable in its own initializer."
    );
    // Location reports line 3, column 9.
    assert_eq!(lines[1], "  --> line 3:9");
    // The offending source line is shown with its line number.
    assert_eq!(lines[3], "3 │ var a = a;");
    // The caret sits under the offending char (8 spaces of offset).
    assert_eq!(lines[4], "  │         ^");
    // The description hangs off an arrow aligned with the caret.
    assert_eq!(
        lines[5],
        "  │         ╰─ Can't read local variable in its own initializer."
    );
}

#[test]
fn multi_char_span_widens_underline() {
    let source = "print foobar;";
    let start = 6; // "foobar"
    let span = Span { start, end: 12 };
    let diag = Diagnostic::error(span, "nope");

    let out = diag.render(source, false);
    let lines: Vec<&str> = out.lines().collect();
    assert_eq!(lines[4], "  │       ^^^^^^");
}

#[test]
fn zero_width_span_still_shows_one_caret() {
    let source = "1 +";
    let span = Span { start: 3, end: 3 };
    let diag = Diagnostic::error(span, "expected an expression");
    let out = diag.render(source, false);
    let lines: Vec<&str> = out.lines().collect();
    assert_eq!(lines[4], "  │    ^");
}

#[test]
fn multibyte_prefix_does_not_shift_span() {
    // "café" contains a 2-byte UTF-8 char ('é'). The span below points at
    // "bar", whose *byte* offset (6) differs from its *char* offset (5).
    // If line/column math ever regresses to indexing chars by byte
    // offset, the caret drifts onto "r ba" instead of "bar".
    let source = "café bar";
    let start = source.find("bar").unwrap();
    let span = Span {
        start,
        end: start + 3,
    };
    let diag = Diagnostic::error(span, "problem");
    let out = diag.render(source, false);
    let lines: Vec<&str> = out.lines().collect();
    assert_eq!(lines[3], "1 │ café bar");
    assert_eq!(lines[4], "  │      ^^^");
}

#[test]
fn render_full_report_with_and_without_color() {
    let source = "ab\ncd";
    let diag = Diagnostic::error(Span { start: 4, end: 5 }, "m");
    assert_eq!(
        diag.render(source, false),
        "error: m\n  --> line 2:2\n  │\n2 │ cd\n  │  ^\n  │  ╰─ m"
    );
    let colored = diag.render(source, true);
    assert!(colored.starts_with("\x1b[1m\x1b[31merror\x1b[0m: m\n"));
    assert!(colored.ends_with("\x1b[31m╰─\x1b[0m \x1b[31mm\x1b[0m"));
}

#[test]
fn span_past_the_end_is_clamped() {
    let source = "x";
    let diag = Diagnostic::error(Span { start: 40, end: 50 }, "late");
    let out = diag.render(source, false);
    let lines: Vec<&str> = out.lines().collect();
    assert_eq!(lines[1], "  --> line 1:2");
    assert_eq!(lines[4], "  │  ^");
}

#[test]
fn has_error_looks_for_errors_only() {
    let warn = Diagnostic {
        severity: Severity::Warning,
        span: Span { start: 0, end: 0 },
        message: "w".into(),
    };
    assert!(!has_error(&[]));
    assert!(!has_error(&[warn.clone()]));
    let err = Diagnostic::error(Span { start: 0, end: 1 }, "e");
    assert!(has_error(&[warn, err]));
}

#[test]
fn can_render_needs_char_boundaries() {
    let source = "café bar\nnext";
    // `é` takes bytes 3..5.
    assert!(Diagnostic::error(Span { start: 3, end: 5 }, "m").can_render(source));
    assert!(!Diagnostic::error(Span { start: 4, end: 6 }, "m").can_render(source));
    assert!(!Diagnostic::error(Span { start: 0, end: 4 }, "m").can_render(source));
    // The underline stops at the end of the line, so an end further on
    // does not matter.
    assert!(Diagnostic::error(Span { start: 6, end: 100 }, "m").can_render(source));
    assert!(Diagnostic::error(Span { start: 40, end: 50 }, "m").can_render(source));
    assert!(Diagnostic::error(Span { start: 3, end: 2 }, "m").can_render(source));
}

fn strip_escapes(s: &str) -> String {
    let mut out = String::new();
    let mut chars = s.chars().peekable();
    while let Some(c) = chars.next() {
        if c == '\x1b' && chars.peek() == Some(&'[') {
            chars.next();
            while let Some(d) = chars.next() {
                if d == 'm' {
                    break;
                }
            }
        } else {
            out.push(c);
        }
    }
    out
}

#[test]
fn colour_only_adds_escapes() {
    let source = "var x = 1;\nprint x +;";
    let diag = Diagnostic::error(Span { start: 19, end: 20 }, "expected an expression");
    let plain = diag.render(source, false);
    let coloured = diag.render(source, true);
    assert!(!plain.contains('\x1b'));
    assert!(coloured.starts_with("\x1b[1m"));
    assert_eq!(strip_escapes(&coloured), plain);
}

#[test]
fn clamped_spans_render_alike() {
    let source = "1 +";
    let far = Diagnostic::error(Span { start: 100, end: 200 }, "m");
    let end = Diagnostic::error(Span { start: 3, end: 3 }, "m");
    assert_eq!(far.render(source, false), end.render(source, false));
    let backwards = Diagnostic::error(Span { start: 2, end: 0 }, "m");
    let empty = Diagnostic::error(Span { start: 2, end: 2 }, "m");
    assert_eq!(backwards.render(source, true), empty.render(source, true));
}
