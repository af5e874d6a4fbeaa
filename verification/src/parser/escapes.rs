//! Reports with and without colour: the coloured report is the plain one
//! with ANSI escape sequences added.
use crate::parser::diagnostic::{
    blank_line, caret_line, clamped_end, clamped_start, count_newlines, header_line, lemma_line_start_no_newline,
    renderable, location_line, message_line, paint, source_line, char_index, line_start_before,
    line_end_from,
    span_layout, spec_render, space, newline, Severity, BLUE, BOLD, DIM, RED, RESET, YELLOW,
};
use crate::parser::span::Span;
use crate::text::{byte_len, byte_offset, decimal, digit_char, lemma_find_from_bounds, repeat_char};
use vstd::prelude::*;

verus! {

/// `s` holds no escape char.
pub open spec fn plain(s: Seq<char>) -> bool {
    forall|i: int| 0 <= i < s.len() ==> s[i] != '\x1b'
}

/// Where the digits and the closing `m` of an escape sequence of `s` end,
/// reading from `i`.
pub open spec fn escape_end(s: Seq<char>, i: int) -> Option<int>
    decreases s.len() - i,
{
    if i < 0 || i >= s.len() {
        None
    } else if s[i] == 'm' {
        Some(i + 1)
    } else if '0' <= s[i] && s[i] <= '9' {
        escape_end(s, i + 1)
    } else {
        None
    }
}

pub proof fn lemma_escape_end_bounds(s: Seq<char>, i: int)
    ensures
        escape_end(s, i) matches Some(e) ==> i < e <= s.len(),
    decreases s.len() - i,
{
    if 0 <= i < s.len() && s[i] != 'm' && '0' <= s[i] && s[i] <= '9' {
        lemma_escape_end_bounds(s, i + 1);
    }
}

/// The length of the escape sequence `ESC [ digits m` that `s` starts
/// with, or 0.
pub open spec fn escape_len(s: Seq<char>) -> int {
    if s.len() >= 2 && s[0] == '\x1b' && s[1] == '[' {
        match escape_end(s, 2) {
            Some(e) => e,
            None => 0,
        }
    } else {
        0
    }
}

/// `s` without its escape sequences.
pub open spec fn strip_escapes(s: Seq<char>) -> Seq<char>
    decreases s.len(),
{
    if s.len() == 0 {
        s
    } else if escape_len(s) > 0 {
        proof {
            lemma_escape_end_bounds(s, 2);
        }
        strip_escapes(s.skip(escape_len(s)))
    } else {
        seq![s[0]] + strip_escapes(s.drop_first())
    }
}

/// `s` is made of whole escape sequences and chars other than the escape
/// char.
pub open spec fn tidy(s: Seq<char>) -> bool
    decreases s.len(),
{
    if s.len() == 0 {
        true
    } else if escape_len(s) > 0 {
        proof {
            lemma_escape_end_bounds(s, 2);
        }
        tidy(s.skip(escape_len(s)))
    } else {
        s[0] != '\x1b' && tidy(s.drop_first())
    }
}

proof fn lemma_escape_end_prefix(x: Seq<char>, y: Seq<char>, i: int)
    requires
        escape_end(x, i) is Some,
    ensures
        escape_end(x + y, i) == escape_end(x, i),
    decreases x.len() - i,
{
    if x[i] != 'm' {
        lemma_escape_end_prefix(x, y, i + 1);
    }
}

/// Stripping a tidy text and what follows it strips each on its own.
pub proof fn lemma_strip_cat(x: Seq<char>, y: Seq<char>)
    requires
        tidy(x),
    ensures
        strip_escapes(x + y) == strip_escapes(x) + strip_escapes(y),
        tidy(y) ==> tidy(x + y),
    decreases x.len(),
{
    if x.len() == 0 {
        assert(x + y =~= y);
        assert(strip_escapes(x) + strip_escapes(y) =~= strip_escapes(y));
    } else if escape_len(x) > 0 {
        lemma_escape_end_bounds(x, 2);
        lemma_escape_end_prefix(x, y, 2);
        let k = escape_len(x);
        assert(escape_len(x + y) == k);
        assert((x + y).skip(k) =~= x.skip(k) + y);
        lemma_strip_cat(x.skip(k), y);
    } else {
        assert(escape_len(x + y) == 0);
        assert((x + y).drop_first() =~= x.drop_first() + y);
        lemma_strip_cat(x.drop_first(), y);
        assert(seq![x[0]] + (strip_escapes(x.drop_first()) + strip_escapes(y)) =~= (seq![x[0]]
            + strip_escapes(x.drop_first())) + strip_escapes(y));
    }
}

/// Plain text is tidy and loses nothing to stripping.
pub proof fn lemma_plain(p: Seq<char>)
    requires
        plain(p),
    ensures
        tidy(p),
        strip_escapes(p) == p,
    decreases p.len(),
{
    if p.len() > 0 {
        assert(plain(p.drop_first()));
        lemma_plain(p.drop_first());
        assert(seq![p[0]] + p.drop_first() =~= p);
    }
}

pub proof fn lemma_plain_cat(a: Seq<char>, b: Seq<char>)
    requires
        plain(a),
        plain(b),
    ensures
        plain(a + b),
{
    assert forall|i: int| 0 <= i < (a + b).len() implies (a + b)[i] != '\x1b' by {
        if i >= a.len() {
            assert((a + b)[i] == b[i - a.len()]);
        }
    }
}

proof fn lemma_escape_digits(code: Seq<char>, i: int)
    requires
        2 <= i < code.len(),
        code[code.len() - 1] == 'm',
        forall|j: int| 2 <= j < code.len() - 1 ==> '0' <= #[trigger] code[j] && code[j] <= '9',
    ensures
        escape_end(code, i) == Some(code.len() as int),
    decreases code.len() - i,
{
    if i < code.len() - 1 {
        lemma_escape_digits(code, i + 1);
    }
}

/// The escape codes that reports use are whole escape sequences, which
/// stripping removes.
pub proof fn lemma_code(code: Seq<char>)
    requires
        code == RESET@ || code == BOLD@ || code == DIM@ || code == RED@ || code == YELLOW@ || code == BLUE@,
    ensures
        tidy(code),
        strip_escapes(code) == Seq::<char>::empty(),
{
    reveal_strlit("\x1b[0m");
    reveal_strlit("\x1b[1m");
    reveal_strlit("\x1b[2m");
    reveal_strlit("\x1b[31m");
    reveal_strlit("\x1b[33m");
    reveal_strlit("\x1b[34m");
    assert(code.len() >= 4 && code[0] == '\x1b' && code[1] == '[' && code[code.len() - 1] == 'm');
    assert(forall|j: int| 2 <= j < code.len() - 1 ==> '0' <= #[trigger] code[j] && code[j] <= '9');
    lemma_escape_digits(code, 2);
    assert(escape_len(code) == code.len());
    let rest = code.skip(code.len() as int);
    assert(rest =~= Seq::<char>::empty());
    assert(tidy(rest));
    assert(strip_escapes(rest) == rest);
    assert(tidy(code) == tidy(rest));
    assert(strip_escapes(code) == strip_escapes(rest));
}

/// A painted text is tidy, and stripping it leaves the text.
pub proof fn lemma_paint(t: Seq<char>, code: Seq<char>, color: bool)
    requires
        plain(t),
        code == RESET@ || code == BOLD@ || code == DIM@ || code == RED@ || code == YELLOW@ || code == BLUE@,
    ensures
        tidy(paint(t, code, color)),
        strip_escapes(paint(t, code, color)) == t,
{
    lemma_plain(t);
    if color {
        lemma_code(code);
        lemma_code(RESET@);
        lemma_strip_cat(code, t);
        lemma_strip_cat(code + t, RESET@);
        assert(Seq::<char>::empty() + t =~= t);
        assert(t + Seq::<char>::empty() =~= t);
    }
}

pub proof fn lemma_plain_decimal(n: nat)
    ensures
        plain(decimal(n)),
    decreases n,
{
    if n >= 10 {
        lemma_plain_decimal(n / 10);
    }
}

/// What stripping leaves of a tidy text is plain.
pub proof fn lemma_strip_plain(x: Seq<char>)
    requires
        tidy(x),
    ensures
        plain(strip_escapes(x)),
    decreases x.len(),
{
    if x.len() > 0 {
        if escape_len(x) > 0 {
            lemma_escape_end_bounds(x, 2);
            lemma_strip_plain(x.skip(escape_len(x)));
        } else {
            lemma_strip_plain(x.drop_first());
            lemma_plain_cat(seq![x[0]], strip_escapes(x.drop_first()));
        }
    }
}

/// Two tidy texts in a row are tidy, and strip to their stripped texts in
/// a row.
proof fn lemma_cat2(at: Seq<char>, af: Seq<char>, bt: Seq<char>, bf: Seq<char>)
    requires
        tidy(at),
        tidy(bt),
        strip_escapes(at) == af,
        strip_escapes(bt) == bf,
    ensures
        tidy(at + bt),
        strip_escapes(at + bt) == af + bf,
{
    lemma_strip_cat(at, bt);
}

proof fn lemma_plain_piece(p: Seq<char>)
    requires
        plain(p),
    ensures
        tidy(p),
        strip_escapes(p) == p,
{
    lemma_plain(p);
}

proof fn lemma_plain_repeat(c: char, n: nat)
    requires
        c != '\x1b',
    ensures
        plain(repeat_char(c, n)),
{
}

proof fn lemma_literals()
    ensures
        plain("-->"@),
        plain("│"@),
        plain("╰─"@),
        plain(": "@),
        plain("line "@),
        plain(":"@),
        plain(space()),
        plain(newline()),
        plain("error"@),
        plain("warning"@),
        plain("info"@),
{
    reveal_strlit("-->");
    reveal_strlit("│");
    reveal_strlit("╰─");
    reveal_strlit(": ");
    reveal_strlit("line ");
    reveal_strlit(":");
    reveal_strlit("error");
    reveal_strlit("warning");
    reveal_strlit("info");
}

proof fn lemma_sev_code(sev: Severity)
    ensures
        sev.spec_color() == RED@ || sev.spec_color() == YELLOW@ || sev.spec_color() == BLUE@,
        plain(sev.spec_label()),
{
    lemma_literals();
}

proof fn lemma_header(sev: Severity, msg: Seq<char>)
    requires
        plain(msg),
    ensures
        tidy(header_line(sev, msg, true)),
        strip_escapes(header_line(sev, msg, true)) == header_line(sev, msg, false),
{
    lemma_literals();
    lemma_sev_code(sev);
    let c = sev.spec_color();
    let l = sev.spec_label();
    lemma_code(BOLD@);
    lemma_code(c);
    lemma_code(RESET@);
    lemma_plain_piece(l);
    lemma_plain_piece(": "@);
    lemma_plain_piece(msg);
    lemma_plain_piece(newline());
    let e = Seq::<char>::empty();
    lemma_cat2(BOLD@, e, c, e);
    lemma_cat2(BOLD@ + c, e + e, l, l);
    lemma_cat2(BOLD@ + c + l, e + e + l, RESET@, e);
    lemma_cat2(BOLD@ + c + l + RESET@, e + e + l + e, ": "@, ": "@);
    lemma_cat2(BOLD@ + c + l + RESET@ + ": "@, e + e + l + e + ": "@, msg, msg);
    lemma_cat2(BOLD@ + c + l + RESET@ + ": "@ + msg, e + e + l + e + ": "@ + msg, newline(), newline());
    assert(e + e + l + e + ": "@ + msg + newline() =~= l + ": "@ + msg + newline());
}

proof fn lemma_location(pad: Seq<char>, line_no: nat, column: nat)
    requires
        plain(pad),
    ensures
        tidy(location_line(pad, line_no, column, true)),
        strip_escapes(location_line(pad, line_no, column, true)) == location_line(pad, line_no, column, false),
{
    lemma_literals();
    let a = "-->"@;
    let b = "line "@ + decimal(line_no) + ":"@ + decimal(column + 1);
    lemma_plain_decimal(line_no);
    lemma_plain_decimal(column + 1);
    lemma_plain_cat("line "@, decimal(line_no));
    lemma_plain_cat("line "@ + decimal(line_no), ":"@);
    lemma_plain_cat("line "@ + decimal(line_no) + ":"@, decimal(column + 1));
    lemma_plain_piece(pad);
    lemma_plain_piece(space());
    lemma_plain_piece(newline());
    lemma_paint(a, BLUE@, true);
    lemma_paint(b, DIM@, true);
    let pa = paint(a, BLUE@, true);
    let pb = paint(b, DIM@, true);
    lemma_cat2(pad, pad, space(), space());
    lemma_cat2(pad + space(), pad + space(), pa, a);
    lemma_cat2(pad + space() + pa, pad + space() + a, space(), space());
    lemma_cat2(pad + space() + pa + space(), pad + space() + a + space(), pb, b);
    lemma_cat2(pad + space() + pa + space() + pb, pad + space() + a + space() + b, newline(), newline());
}

proof fn lemma_blank(pad: Seq<char>)
    requires
        plain(pad),
    ensures
        tidy(blank_line(pad, true)),
        strip_escapes(blank_line(pad, true)) == blank_line(pad, false),
{
    lemma_literals();
    let a = "│"@;
    lemma_plain_piece(pad);
    lemma_plain_piece(space());
    lemma_plain_piece(newline());
    lemma_paint(a, BLUE@, true);
    let pa = paint(a, BLUE@, true);
    lemma_cat2(pad, pad, space(), space());
    lemma_cat2(pad + space(), pad + space(), pa, a);
    lemma_cat2(pad + space() + pa, pad + space() + a, newline(), newline());
}

proof fn lemma_source(gutter: Seq<char>, text: Seq<char>)
    requires
        plain(gutter),
        plain(text),
    ensures
        tidy(source_line(gutter, text, true)),
        strip_escapes(source_line(gutter, text, true)) == source_line(gutter, text, false),
{
    lemma_literals();
    let a = "│"@;
    lemma_plain_piece(space());
    lemma_plain_piece(newline());
    lemma_plain_piece(text);
    lemma_paint(gutter, BLUE@, true);
    lemma_paint(a, BLUE@, true);
    let pg = paint(gutter, BLUE@, true);
    let pa = paint(a, BLUE@, true);
    lemma_cat2(pg, gutter, space(), space());
    lemma_cat2(pg + space(), gutter + space(), pa, a);
    lemma_cat2(pg + space() + pa, gutter + space() + a, space(), space());
    lemma_cat2(pg + space() + pa + space(), gutter + space() + a + space(), text, text);
    lemma_cat2(pg + space() + pa + space() + text, gutter + space() + a + space() + text, newline(), newline());
}

proof fn lemma_caret(pad: Seq<char>, column: nat, width: nat, sev: Severity)
    requires
        plain(pad),
    ensures
        tidy(caret_line(pad, column, width, sev, true)),
        strip_escapes(caret_line(pad, column, width, sev, true)) == caret_line(pad, column, width, sev, false),
{
    lemma_literals();
    lemma_sev_code(sev);
    let a = "│"@;
    let sp = repeat_char(' ', column);
    let ca = repeat_char('^', width);
    lemma_plain_repeat(' ', column);
    lemma_plain_repeat('^', width);
    lemma_plain_piece(pad);
    lemma_plain_piece(space());
    lemma_plain_piece(newline());
    lemma_plain_piece(sp);
    lemma_paint(a, BLUE@, true);
    lemma_paint(ca, sev.spec_color(), true);
    let pa = paint(a, BLUE@, true);
    let pc = paint(ca, sev.spec_color(), true);
    lemma_cat2(pad, pad, space(), space());
    lemma_cat2(pad + space(), pad + space(), pa, a);
    lemma_cat2(pad + space() + pa, pad + space() + a, space(), space());
    lemma_cat2(pad + space() + pa + space(), pad + space() + a + space(), sp, sp);
    lemma_cat2(pad + space() + pa + space() + sp, pad + space() + a + space() + sp, pc, ca);
    lemma_cat2(pad + space() + pa + space() + sp + pc, pad + space() + a + space() + sp + ca, newline(), newline());
}

proof fn lemma_message(pad: Seq<char>, column: nat, sev: Severity, msg: Seq<char>)
    requires
        plain(pad),
        plain(msg),
    ensures
        tidy(message_line(pad, column, sev, msg, true)),
        strip_escapes(message_line(pad, column, sev, msg, true)) == message_line(pad, column, sev, msg, false),
{
    lemma_literals();
    lemma_sev_code(sev);
    let a = "│"@;
    let h = "╰─"@;
    let sp = repeat_char(' ', column);
    let c = sev.spec_color();
    lemma_plain_repeat(' ', column);
    lemma_plain_piece(pad);
    lemma_plain_piece(space());
    lemma_plain_piece(sp);
    lemma_paint(a, BLUE@, true);
    lemma_paint(h, c, true);
    lemma_paint(msg, c, true);
    let pa = paint(a, BLUE@, true);
    let ph = paint(h, c, true);
    let pm = paint(msg, c, true);
    lemma_cat2(pad, pad, space(), space());
    lemma_cat2(pad + space(), pad + space(), pa, a);
    lemma_cat2(pad + space() + pa, pad + space() + a, space(), space());
    lemma_cat2(pad + space() + pa + space(), pad + space() + a + space(), sp, sp);
    lemma_cat2(pad + space() + pa + space() + sp, pad + space() + a + space() + sp, ph, h);
    lemma_cat2(pad + space() + pa + space() + sp + ph, pad + space() + a + space() + sp + h, space(), space());
    lemma_cat2(
        pad + space() + pa + space() + sp + ph + space(),
        pad + space() + a + space() + sp + h + space(),
        pm,
        msg,
    );
}

proof fn lemma_layout_bounds(span: Span, s: Seq<char>)
    requires
        renderable(span, s),
    ensures
        ({
            let (ks, ls, le, ke) = span_layout(span, s);
            &&& 0 <= ls <= ks <= le <= s.len()
        }),
{
    let (ks, ls, le, ke) = span_layout(span, s);
    let cs = clamped_start(span, s);
    assert(0 <= ks <= s.len() && byte_offset(s, ks) == cs);
    lemma_line_start_no_newline(s, ks);
    crate::parser::diagnostic::lemma_find_skips_pub(s, ls, ks);
    lemma_find_from_bounds(s, ks, '\n');
}

proof fn lemma_layout_text_plain(span: Span, s: Seq<char>)
    requires
        plain(s),
        renderable(span, s),
    ensures
        ({
            let (ks, ls, le, ke) = span_layout(span, s);
            &&& 0 <= ls <= le <= s.len()
            &&& plain(s.subrange(ls, le))
        }),
{
    let (ks, ls, le, ke) = span_layout(span, s);
    let cs = clamped_start(span, s);
    assert(0 <= ks <= s.len() && byte_offset(s, ks) == cs);
    lemma_line_start_no_newline(s, ks);
    lemma_find_from_bounds(s, ls, '\n');
    let text = s.subrange(ls, le);
    assert forall|i: int| 0 <= i < text.len() implies text[i] != '\x1b' by {
        assert(text[i] == s[ls + i]);
    }
}

/// A span renders as the span clamped to the source does: past its end, or
/// ending before it starts, it is first brought back inside.
pub proof fn law_render_clamps_the_span(sev: Severity, msg: Seq<char>, span: Span, s: Seq<char>, color: bool)
    requires
        byte_len(s) <= usize::MAX,
    ensures
        ({
            let clamped = Span { start: clamped_start(span, s) as usize, end: clamped_end(span, s) as usize };
            &&& spec_render(sev, msg, span, s, color) == spec_render(sev, msg, clamped, s, color)
            &&& renderable(span, s) == renderable(clamped, s)
        }),
{
    let clamped = Span { start: clamped_start(span, s) as usize, end: clamped_end(span, s) as usize };
    assert(clamped_start(clamped, s) == clamped_start(span, s));
    assert(clamped_end(clamped, s) == clamped_end(span, s));
}

/// Colour only adds escape sequences: when neither the message nor the
/// source holds an escape char, the plain report holds none, and the
/// coloured report with its escape sequences taken out is the plain one.
#[verifier::rlimit(40)]
pub proof fn law_colour_only_adds_escapes(sev: Severity, msg: Seq<char>, span: Span, s: Seq<char>)
    requires
        plain(msg),
        plain(s),
        renderable(span, s),
    ensures
        strip_escapes(spec_render(sev, msg, span, s, true)) == spec_render(sev, msg, span, s, false),
        plain(spec_render(sev, msg, span, s, false)),
        spec_render(sev, msg, span, s, true).take(BOLD@.len() as int) == BOLD@,
{
    let (ks, ls, le, ke) = span_layout(span, s);
    let line_no = 1 + count_newlines(s.take(ks));
    let column = (ks - ls) as nat;
    let width = if ke - ks >= 1 {
        (ke - ks) as nat
    } else {
        1nat
    };
    let gutter = decimal(line_no);
    let pad = repeat_char(' ', gutter.len());
    let text = s.subrange(ls, le);
    lemma_layout_text_plain(span, s);
    lemma_plain_decimal(line_no);
    lemma_plain_repeat(' ', gutter.len());
    lemma_header(sev, msg);
    lemma_location(pad, line_no, column);
    lemma_blank(pad);
    lemma_source(gutter, text);
    lemma_caret(pad, column, width, sev);
    lemma_message(pad, column, sev, msg);
    let h = header_line(sev, msg, true);
    let l = location_line(pad, line_no, column, true);
    let b = blank_line(pad, true);
    let so = source_line(gutter, text, true);
    let c = caret_line(pad, column, width, sev, true);
    let m = message_line(pad, column, sev, msg, true);
    let hf = header_line(sev, msg, false);
    let lf = location_line(pad, line_no, column, false);
    let bf = blank_line(pad, false);
    let sof = source_line(gutter, text, false);
    let cf = caret_line(pad, column, width, sev, false);
    let mf = message_line(pad, column, sev, msg, false);
    lemma_cat2(h, hf, l, lf);
    lemma_cat2(h + l, hf + lf, b, bf);
    lemma_cat2(h + l + b, hf + lf + bf, so, sof);
    lemma_cat2(h + l + b + so, hf + lf + bf + sof, c, cf);
    lemma_cat2(h + l + b + so + c, hf + lf + bf + sof + cf, m, mf);
    assert(spec_render(sev, msg, span, s, true) == h + l + b + so + c + m);
    assert(spec_render(sev, msg, span, s, false) == hf + lf + bf + sof + cf + mf);
    lemma_strip_plain(h + l + b + so + c + m);
    reveal_strlit("\x1b[1m");
    assert((h + l + b + so + c + m).take(BOLD@.len() as int) =~= BOLD@);
}

/// `s` holds no newline.
pub open spec fn one_line(s: Seq<char>) -> bool {
    forall|i: int| 0 <= i < s.len() ==> s[i] != '\n'
}

proof fn lemma_decimal_digits(n: nat)
    ensures
        forall|i: int| 0 <= i < decimal(n).len() ==> '0' <= #[trigger] decimal(n)[i] && decimal(n)[i] <= '9',
        decimal(n).len() >= 1,
    decreases n,
{
    if n >= 10 {
        lemma_decimal_digits(n / 10);
        let d = (n % 10) as int;
        assert(0 <= d < 10);
        assert forall|i: int| 0 <= i < decimal(n).len() implies '0' <= #[trigger] decimal(n)[i] && decimal(n)[i] <= '9' by {
            if i < decimal(n / 10).len() {
                assert(decimal(n)[i] == decimal(n / 10)[i]);
            }
        }
    }
}

/// The caret sits under the span's first char: in the report, the line
/// that shows the source line holding the span's start is followed by the
/// line of carets, and the first caret stands as many chars from the start
/// of its line as the span's first char does in the line above.
pub proof fn law_caret_under_the_span(sev: Severity, msg: Seq<char>, span: Span, s: Seq<char>)
    requires
        renderable(span, s),
    ensures
        ({
            let out = spec_render(sev, msg, span, s, false);
            let k = char_index(s, clamped_start(span, s));
            let ls = line_start_before(s, k);
            let le = line_end_from(s, ls);
            exists|a: Seq<char>, g: Seq<char>, cl: Seq<char>, rest: Seq<char>|
                {
                    &&& #[trigger] (a + g + s.subrange(ls, le) + seq!['\n'] + cl + seq!['\n'] + rest) == out
                    &&& (a.len() == 0 || a.last() == '\n')
                    &&& one_line(g)
                    &&& one_line(cl)
                    &&& g.len() + (k - ls) < cl.len()
                    &&& cl[g.len() + (k - ls)] == '^'
                    &&& forall|j: int| 0 <= j < g.len() + (k - ls) ==> cl[j] != '^'
                }
        }),
{
    reveal_strlit("│");
    let (ks, ls, le, ke) = span_layout(span, s);
    lemma_layout_bounds(span, s);
    let line_no = 1 + count_newlines(s.take(ks));
    let column = (ks - ls) as nat;
    let width = if ke - ks >= 1 {
        (ke - ks) as nat
    } else {
        1nat
    };
    let gutter = decimal(line_no);
    let pad = repeat_char(' ', gutter.len());
    let text = s.subrange(ls, le);
    lemma_decimal_digits(line_no);
    let bar = "│"@;
    let a = header_line(sev, msg, false) + location_line(pad, line_no, column, false) + blank_line(pad, false);
    let g = gutter + space() + bar + space();
    let carets = repeat_char('^', width);
    let cl = pad + space() + bar + space() + repeat_char(' ', column) + carets;
    let rest = message_line(pad, column, sev, msg, false);
    assert(spec_render(sev, msg, span, s, false) =~= a + g + text + seq!['\n'] + cl + seq!['\n'] + rest);
    assert(a.last() == '\n');
    assert(one_line(g));
    assert(one_line(cl));
    let c: int = (g.len() + column) as int;
    assert(c == pad.len() + 3 + column);
    assert(cl[c] == carets[0]);
    assert forall|j: int| 0 <= j < c implies cl[j] != '^' by {
        if j < pad.len() {
            assert(cl[j] == ' ');
        } else if j < pad.len() + 3 {
        } else {
            assert(cl[j] == ' ');
        }
    }
}

/// The report names where the span starts: its first line is the
/// severity and the message; its second, after the gutter's padding, gives
/// the line number (one more than the newlines before the span's first
/// char) and the column (one more than the chars between the start of that
/// line and the span's first char).
pub proof fn law_location_names_line_and_column(sev: Severity, msg: Seq<char>, span: Span, s: Seq<char>)
    requires
        renderable(span, s),
    ensures
        ({
            let out = spec_render(sev, msg, span, s, false);
            let k = char_index(s, clamped_start(span, s));
            let line = 1 + count_newlines(s.take(k));
            let column = k - line_start_before(s, k);
            exists|p: Seq<char>, rest: Seq<char>|
                {
                    &&& #[trigger] (sev.spec_label() + ": "@ + msg + seq!['\n'] + p + " --> line "@ + decimal(line)
                        + ":"@ + decimal((column + 1) as nat) + seq!['\n'] + rest) == out
                    &&& forall|i: int| 0 <= i < p.len() ==> p[i] == ' '
                }
        }),
{
    reveal_strlit(" --> line ");
    reveal_strlit("-->");
    reveal_strlit("line ");
    reveal_strlit(": ");
    reveal_strlit(":");
    let (ks, ls, le, ke) = span_layout(span, s);
    lemma_layout_bounds(span, s);
    let line_no = 1 + count_newlines(s.take(ks));
    let column = (ks - ls) as nat;
    let width = if ke - ks >= 1 {
        (ke - ks) as nat
    } else {
        1nat
    };
    let gutter = decimal(line_no);
    let pad = repeat_char(' ', gutter.len());
    let rest = blank_line(pad, false) + source_line(gutter, s.subrange(ls, le), false) + caret_line(
        pad,
        column,
        width,
        sev,
        false,
    ) + message_line(pad, column, sev, msg, false);
    assert(" --> line "@ =~= space() + "-->"@ + space() + "line "@);
    assert(spec_render(sev, msg, span, s, false) =~= sev.spec_label() + ": "@ + msg + seq!['\n'] + pad
        + " --> line "@ + decimal(line_no) + ":"@ + decimal(column + 1) + seq!['\n'] + rest);
}

} // verus!
