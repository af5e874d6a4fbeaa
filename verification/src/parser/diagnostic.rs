//! Problems found in source text, and how they are shown to a person.
use crate::parser::span::{is_boundary, Span};
use crate::text::{
    byte_len, byte_offset, char_width_exec, chars_of, decimal, find_from, lemma_byte_len_encode,
    lemma_byte_offset_mono, lemma_byte_offset_step, lemma_byte_offset_strict,
    lemma_find_from_bounds, push_char, push_decimal, push_repeated, repeat_char,
};
use vstd::prelude::*;
use vstd::string::StringExecFns;

verus! {

/// How severe is a diagnostic?
#[derive(Debug, Clone, Copy, PartialEq, Eq, Structural)]
pub enum Severity {
    Error,
    Warning,
    Info,
}


impl Severity {
    pub open spec fn spec_label(self) -> Seq<char> {
        match self {
            Severity::Error => "error"@,
            Severity::Warning => "warning"@,
            Severity::Info => "info"@,
        }
    }

    pub open spec fn spec_color(self) -> Seq<char> {
        match self {
            Severity::Error => RED@,
            Severity::Warning => YELLOW@,
            Severity::Info => BLUE@,
        }
    }

    fn label(self) -> (r: &'static str)
        ensures
            r@ == self.spec_label(),
    {
        match self {
            Severity::Error => "error",
            Severity::Warning => "warning",
            Severity::Info => "info",
        }
    }

    fn color(self) -> (r: &'static str)
        ensures
            r@ == self.spec_color(),
    {
        match self {
            Severity::Error => RED,
            Severity::Warning => YELLOW,
            Severity::Info => BLUE,
        }
    }
}


// ANSI escape codes used to brighten up terminal output.
pub const RESET: &'static str = "\x1b[0m";
pub const BOLD: &'static str = "\x1b[1m";
pub const DIM: &'static str = "\x1b[2m";
pub const RED: &'static str = "\x1b[31m";
pub const YELLOW: &'static str = "\x1b[33m";
pub const BLUE: &'static str = "\x1b[34m";

/// A problem to report to the human.
#[derive(Debug, Clone, PartialEq)]
pub struct Diagnostic {
    pub severity: Severity,
    pub span: Span,
    pub message: String,
}

impl Diagnostic {
    /// An error at `at` with the given message.
    pub fn error(at: Span, message: &str) -> (r: Self)
        ensures
            r.severity == Severity::Error,
            r.span == at,
            r.message@ == message@,
    {
        Diagnostic { severity: Severity::Error, span: at, message: message.to_owned() }
    }
}


/// Number of newlines in `s`.
pub open spec fn count_newlines(s: Seq<char>) -> nat
    decreases s.len(),
{
    if s.len() == 0 {
        0
    } else {
        count_newlines(s.drop_last()) + if s.last() == '\n' {
            1nat
        } else {
            0nat
        }
    }
}

/// Char index at which the line holding char index `k` starts: just after
/// the last newline before `k`, or 0.
pub open spec fn line_start_before(s: Seq<char>, k: int) -> int
    decreases k,
{
    if k <= 0 {
        0
    } else if s[k - 1] == '\n' {
        k
    } else {
        line_start_before(s, k - 1)
    }
}

/// Char index of the newline that ends the line going on at `k`, or the end
/// of `s`.
pub open spec fn line_end_from(s: Seq<char>, k: int) -> int {
    match find_from(s, k, '\n') {
        Some(n) => n,
        None => s.len() as int,
    }
}

/// The char index at which byte offset `b` falls.
pub open spec fn char_index(s: Seq<char>, b: int) -> int {
    choose|k: int| 0 <= k <= s.len() && byte_offset(s, k) == b
}

/// The span's start, clamped to the text.
pub open spec fn clamped_start(span: Span, s: Seq<char>) -> int {
    if span.start < byte_len(s) {
        span.start as int
    } else {
        byte_len(s) as int
    }
}

/// The span's end, clamped to lie between the clamped start and the end of
/// the text.
pub open spec fn clamped_end(span: Span, s: Seq<char>) -> int {
    let start = clamped_start(span, s);
    if span.end < start {
        start
    } else if span.end > byte_len(s) {
        byte_len(s) as int
    } else {
        span.end as int
    }
}

/// Where the span lands in `s`: the char index of its start, the start and
/// end of the line that holds it, and the char index where the underline
/// ends.
pub open spec fn span_layout(span: Span, s: Seq<char>) -> (int, int, int, int) {
    let ks = char_index(s, clamped_start(span, s));
    let ls = line_start_before(s, ks);
    let le = line_end_from(s, ls);
    let underline_end = if clamped_end(span, s) < byte_offset(s, le) {
        clamped_end(span, s)
    } else {
        byte_offset(s, le) as int
    };
    (ks, ls, le, char_index(s, underline_end))
}

/// A span can be shown against `s`: its clamped start, and the end of its
/// underline, fall on char boundaries.
pub open spec fn renderable(span: Span, s: Seq<char>) -> bool {
    let ks = char_index(s, clamped_start(span, s));
    let le = line_end_from(s, line_start_before(s, ks));
    let underline_end = if clamped_end(span, s) < byte_offset(s, le) {
        clamped_end(span, s)
    } else {
        byte_offset(s, le) as int
    };
    &&& is_boundary(s, clamped_start(span, s))
    &&& is_boundary(s, underline_end)
}

/// `text` wrapped in the escape `code` and a reset, when `color` is set.
pub open spec fn paint(text: Seq<char>, code: Seq<char>, color: bool) -> Seq<char> {
    if color {
        code + text + RESET@
    } else {
        text
    }
}

pub open spec fn space() -> Seq<char> {
    seq![' ']
}

pub open spec fn newline() -> Seq<char> {
    seq!['\n']
}

/// The first line of a report: severity and message.
pub open spec fn header_line(sev: Severity, msg: Seq<char>, color: bool) -> Seq<char> {
    if color {
        BOLD@ + sev.spec_color() + sev.spec_label() + RESET@ + ": "@ + msg + newline()
    } else {
        sev.spec_label() + ": "@ + msg + newline()
    }
}

/// The second line of a report: where the problem is.
pub open spec fn location_line(pad: Seq<char>, line_no: nat, column: nat, color: bool) -> Seq<char> {
    pad + space() + paint("-->"@, BLUE@, color) + space() + paint(
        "line "@ + decimal(line_no) + ":"@ + decimal(column + 1),
        DIM@,
        color,
    ) + newline()
}

/// The third line of a report: an empty gutter.
pub open spec fn blank_line(pad: Seq<char>, color: bool) -> Seq<char> {
    pad + space() + paint("│"@, BLUE@, color) + newline()
}

/// The fourth line of a report: the source line, after its number.
pub open spec fn source_line(gutter: Seq<char>, text: Seq<char>, color: bool) -> Seq<char> {
    paint(gutter, BLUE@, color) + space() + paint("│"@, BLUE@, color) + space() + text + newline()
}

/// The fifth line of a report: carets under the span.
pub open spec fn caret_line(pad: Seq<char>, column: nat, width: nat, sev: Severity, color: bool) -> Seq<char> {
    pad + space() + paint("│"@, BLUE@, color) + space() + repeat_char(' ', column) + paint(
        repeat_char('^', width),
        sev.spec_color(),
        color,
    ) + newline()
}

/// The last line of a report: the message, hanging off an arrow under the
/// carets. It has no newline at its end.
pub open spec fn message_line(pad: Seq<char>, column: nat, sev: Severity, msg: Seq<char>, color: bool) -> Seq<char> {
    pad + space() + paint("│"@, BLUE@, color) + space() + repeat_char(' ', column) + paint(
        "╰─"@,
        sev.spec_color(),
        color,
    ) + space() + paint(msg, sev.spec_color(), color)
}

/// The report that `render` produces for a diagnostic of severity `sev`
/// with message `msg` at `span` in source text `s`.
pub open spec fn spec_render(sev: Severity, msg: Seq<char>, span: Span, s: Seq<char>, color: bool) -> Seq<char> {
    let (ks, ls, le, ke) = span_layout(span, s);
    let line_no = 1 + count_newlines(s.take(ks));
    let column = (ks - ls) as nat;
    let width = if ke - ks >= 1 {
        (ke - ks) as nat
    } else {
        1nat
    };
    let gutter = decimal(line_no);
    let pad = repeat_char(' ', gutter.len());
    header_line(sev, msg, color) + location_line(pad, line_no, column, color) + blank_line(pad, color)
        + source_line(gutter, s.subrange(ls, le), color) + caret_line(pad, column, width, sev, color)
        + message_line(pad, column, sev, msg, color)
}

proof fn lemma_count_newlines_step(s: Seq<char>, k: int)
    requires
        0 <= k < s.len(),
    ensures
        count_newlines(s.take(k + 1)) == count_newlines(s.take(k)) + if s[k] == '\n' {
            1nat
        } else {
            0nat
        },
        count_newlines(s.take(k)) <= k,
    decreases k,
{
    assert(s.take(k + 1).drop_last() =~= s.take(k));
    if k > 0 {
        lemma_count_newlines_step(s, k - 1);
    } else {
        assert(s.take(0) =~= Seq::<char>::empty());
    }
}

/// No newline lies between the start of a line and `k`.
pub proof fn lemma_line_start_no_newline(s: Seq<char>, k: int)
    requires
        0 <= k <= s.len(),
    ensures
        0 <= line_start_before(s, k) <= k,
        forall|j: int| line_start_before(s, k) <= j < k ==> s[j] != '\n',
    decreases k,
{
    if k > 0 && s[k - 1] != '\n' {
        lemma_line_start_no_newline(s, k - 1);
    }
}

/// Searching from the start of a line finds what searching from any later
/// char of the line finds.
/// Searching for a newline from the start of a line finds what searching
/// from any later char of that line finds.
pub proof fn lemma_find_skips_pub(s: Seq<char>, i: int, k: int)
    requires
        0 <= i <= k <= s.len(),
        forall|j: int| i <= j < k ==> s[j] != '\n',
    ensures
        find_from(s, i, '\n') == find_from(s, k, '\n'),
{
    lemma_find_skips(s, i, k);
}

proof fn lemma_find_skips(s: Seq<char>, i: int, k: int)
    requires
        0 <= i <= k <= s.len(),
        forall|j: int| i <= j < k ==> s[j] != '\n',
    ensures
        find_from(s, i, '\n') == find_from(s, k, '\n'),
    decreases k - i,
{
    if i < k {
        lemma_find_skips(s, i + 1, k);
    }
}


/// Appends `text`, painted with `code` when `color` is set.
fn push_painted(out: &mut String, text: &str, code: &str, color: bool)
    ensures
        final(out)@ == old(out)@ + paint(text@, code@, color),
{
    if color {
        out.append(code);
        out.append(text);
        out.append(RESET);
        assert(final(out)@ =~= old(out)@ + paint(text@, code@, color));
    } else {
        out.append(text);
    }
}

/// Where a span lands in the chars `s` of a source whose UTF-8 length is
/// `total`: `(ks, ls, le, ke, line_no)` as `span_layout` describes them,
/// and the line number of `ks`.
fn locate(span: Span, chars: &Vec<char>, total: usize) -> (r: (usize, usize, usize, usize, usize))
    requires
        total == byte_len(chars@),
        renderable(span, chars@),
        chars@.len() < usize::MAX,
    ensures
        ({
            let (ks, ls, le, ke) = span_layout(span, chars@);
            &&& r.0 == ks
            &&& r.1 == ls
            &&& r.2 == le
            &&& r.3 == ke
            &&& r.4 == 1 + count_newlines(chars@.take(ks))
            &&& 0 <= ls <= ks <= ke <= le <= chars@.len()
        }),
{
    let ghost s = chars@;
    let _n = chars.len();
    let start = if span.start < total {
        span.start
    } else {
        total
    };
    let end = if span.end < start {
        start
    } else if span.end > total {
        total
    } else {
        span.end
    };
    proof {
        assert(s.take(0) =~= Seq::<char>::empty());
        assert(s.take(s.len() as int) =~= s);
    }
    let ghost ks = char_index(s, start as int);
    // Find the line containing `start`: its 1-based number and the char
    // index where it begins.
    let mut k: usize = 0;
    let mut b: usize = 0;
    let mut line_no: usize = 1;
    let mut line_start: usize = 0;
    while b < start
        invariant
            s == chars@,
            s.len() < usize::MAX,
            total == byte_len(s),
            start <= total,
            is_boundary(s, start as int),
            ks == char_index(s, start as int),
            0 <= ks <= s.len(),
            byte_offset(s, ks) == start,
            k <= ks,
            b == byte_offset(s, k as int),
            line_no == 1 + count_newlines(s.take(k as int)),
            line_no <= k + 1,
            line_start == line_start_before(s, k as int),
        decreases ks - k,
    {
        proof {
            if k == ks {
                assert(false);
            }
            lemma_byte_offset_step(s, k as int);
            lemma_byte_offset_mono(s, k as int + 1, ks);
            lemma_count_newlines_step(s, k as int);
        }
        let c = chars[k];
        if c == '\n' {
            line_no = line_no + 1;
            line_start = k + 1;
        }
        b = b + char_width_exec(c);
        k = k + 1;
    }
    proof {
        if k < ks {
            lemma_byte_offset_strict(s, k as int, ks);
        }
        lemma_line_start_no_newline(s, ks);
        lemma_find_skips(s, line_start as int, ks);
        lemma_find_from_bounds(s, ks, '\n');
    }
    // Extend to the end of that line.
    let mut le: usize = k;
    let mut ble: usize = b;
    while le < chars.len() && chars[le] != '\n'
        invariant
            s == chars@,
            total == byte_len(s),
            byte_offset(s, s.len() as int) == total,
            ks <= le <= s.len(),
            ble == byte_offset(s, le as int),
            find_from(s, le as int, '\n') == find_from(s, ks, '\n'),
        decreases s.len() - le,
    {
        proof {
            lemma_byte_offset_step(s, le as int);
            lemma_byte_offset_mono(s, le as int + 1, s.len() as int);
        }
        ble = ble + char_width_exec(chars[le]);
        le = le + 1;
    }
    proof {
        lemma_find_from_bounds(s, ks, '\n');
        if le < s.len() {
            assert(find_from(s, le as int, '\n') == Some(le as int));
        } else {
            assert(find_from(s, le as int, '\n') is None);
        }
        lemma_byte_offset_mono(s, ks, le as int);
    }
    // Underline the span, confined to this line.
    let underline_end = if end < ble {
        end
    } else {
        ble
    };
    let ghost ke = char_index(s, underline_end as int);
    proof {
        assert(is_boundary(s, underline_end as int));
        assert(0 <= ke <= s.len() && byte_offset(s, ke) == underline_end);
        if ke < ks {
            lemma_byte_offset_strict(s, ke, ks);
        }
        if ke > le {
            lemma_byte_offset_strict(s, le as int, ke);
        }
    }
    let mut m: usize = k;
    let mut bm: usize = b;
    while bm < underline_end
        invariant
            s == chars@,
            total == byte_len(s),
            ks <= m <= ke <= le <= s.len(),
            bm == byte_offset(s, m as int),
            byte_offset(s, ke) == underline_end,
        decreases ke - m,
    {
        proof {
            if m == ke {
                assert(false);
            }
            lemma_byte_offset_step(s, m as int);
            lemma_byte_offset_mono(s, m as int + 1, ke);
        }
        bm = bm + char_width_exec(chars[m]);
        m = m + 1;
    }
    proof {
        if m < ke {
            lemma_byte_offset_strict(s, m as int, ke);
        }
    }
    (k, line_start, le, m, line_no)
}


/// The char index, at or after `k0`, at which byte offset `t` falls, or
/// `None` when `t` is no char boundary of `chars`.
fn find_boundary(chars: &Vec<char>, k0: usize, b0: usize, t: usize) -> (r: Option<usize>)
    requires
        k0 <= chars@.len(),
        b0 == byte_offset(chars@, k0 as int),
        b0 <= t <= byte_len(chars@),
        byte_len(chars@) <= usize::MAX,
    ensures
        r matches Some(m) ==> k0 <= m <= chars@.len() && byte_offset(chars@, m as int) == t,
        r is None ==> !is_boundary(chars@, t as int),
{
    let ghost s = chars@;
    proof {
        assert(s.take(s.len() as int) =~= s);
        assert forall|m: int| 0 <= m < k0 implies byte_offset(s, m) < t by {
            lemma_byte_offset_strict(s, m, k0 as int);
        }
    }
    let n = chars.len();
    let mut k = k0;
    let mut b = b0;
    while b < t
        invariant
            s == chars@,
            n == s.len(),
            byte_len(s) <= usize::MAX,
            k0 <= k <= s.len(),
            b == byte_offset(s, k as int),
            t <= byte_len(s),
            byte_offset(s, s.len() as int) == byte_len(s),
            forall|m: int| 0 <= m < k ==> byte_offset(s, m) < t,
        decreases s.len() - k,
    {
        proof {
            if k == s.len() {
                assert(false);
            }
            lemma_byte_offset_step(s, k as int);
            lemma_byte_offset_mono(s, k as int + 1, s.len() as int);
        }
        b = b + char_width_exec(chars[k]);
        k = k + 1;
    }
    if b == t {
        Some(k)
    } else {
        proof {
            assert forall|m: int| 0 <= m <= s.len() implies byte_offset(s, m) != t by {
                if m >= k {
                    lemma_byte_offset_mono(s, k as int, m);
                }
            }
        }
        None
    }
}


// Header: "error: <message>"
fn push_header_line(out: &mut String, sev: Severity, msg: &str, color: bool)
    ensures
        final(out)@ == old(out)@ + header_line(sev, msg@, color),
{
    if color {
        out.append(BOLD);
        out.append(sev.color());
        out.append(sev.label());
        out.append(RESET);
        out.append(": ");
        out.append(msg);
    } else {
        out.append(sev.label());
        out.append(": ");
        out.append(msg);
    }
    push_char(out, '\n');
    assert(final(out)@ =~= old(out)@ + header_line(sev, msg@, color));
}

// Location: " --> line L:C"
fn push_location_line(out: &mut String, pad: usize, line_no: usize, column: usize, color: bool)
    requires
        column < usize::MAX,
    ensures
        final(out)@ == old(out)@ + location_line(repeat_char(' ', pad as nat), line_no as nat, column as nat, color),
{
    push_repeated(out, ' ', pad);
    push_char(out, ' ');
    push_painted(out, "-->", BLUE, color);
    push_char(out, ' ');
    let mut location = String::new();
    location.append("line ");
    push_decimal(&mut location, line_no);
    location.append(":");
    push_decimal(&mut location, column + 1);
    assert(location@ =~= "line "@ + decimal(line_no as nat) + ":"@ + decimal(column as nat + 1));
    push_painted(out, location.as_str(), DIM, color);
    push_char(out, '\n');
    assert(final(out)@ =~= old(out)@ + location_line(repeat_char(' ', pad as nat), line_no as nat, column as nat, color));
}

// Blank gutter line.
fn push_blank_line(out: &mut String, pad: usize, color: bool)
    ensures
        final(out)@ == old(out)@ + blank_line(repeat_char(' ', pad as nat), color),
{
    push_repeated(out, ' ', pad);
    push_char(out, ' ');
    push_painted(out, "│", BLUE, color);
    push_char(out, '\n');
    assert(final(out)@ =~= old(out)@ + blank_line(repeat_char(' ', pad as nat), color));
}

// The offending source line.
fn push_source_line(out: &mut String, gutter: &str, text: &str, color: bool)
    ensures
        final(out)@ == old(out)@ + source_line(gutter@, text@, color),
{
    push_painted(out, gutter, BLUE, color);
    push_char(out, ' ');
    push_painted(out, "│", BLUE, color);
    push_char(out, ' ');
    out.append(text);
    push_char(out, '\n');
    assert(final(out)@ =~= old(out)@ + source_line(gutter@, text@, color));
}

// The squigglies.
fn push_caret_line(out: &mut String, pad: usize, column: usize, width: usize, sev: Severity, color: bool)
    ensures
        final(out)@ == old(out)@ + caret_line(repeat_char(' ', pad as nat), column as nat, width as nat, sev, color),
{
    push_repeated(out, ' ', pad);
    push_char(out, ' ');
    push_painted(out, "│", BLUE, color);
    push_char(out, ' ');
    push_repeated(out, ' ', column);
    let mut carets = String::new();
    push_repeated(&mut carets, '^', width);
    assert(carets@ =~= repeat_char('^', width as nat));
    push_painted(out, carets.as_str(), sev.color(), color);
    push_char(out, '\n');
    assert(final(out)@ =~= old(out)@ + caret_line(repeat_char(' ', pad as nat), column as nat, width as nat, sev, color));
}

// The description, hanging off an arrow under the squigglies.
fn push_message_line(out: &mut String, pad: usize, column: usize, sev: Severity, msg: &str, color: bool)
    ensures
        final(out)@ == old(out)@ + message_line(repeat_char(' ', pad as nat), column as nat, sev, msg@, color),
{
    push_repeated(out, ' ', pad);
    push_char(out, ' ');
    push_painted(out, "│", BLUE, color);
    push_char(out, ' ');
    push_repeated(out, ' ', column);
    push_painted(out, "╰─", sev.color(), color);
    push_char(out, ' ');
    push_painted(out, msg, sev.color(), color);
    assert(final(out)@ =~= old(out)@ + message_line(repeat_char(' ', pad as nat), column as nat, sev, msg@, color));
}

impl Diagnostic {
    /// Whether `render` can show this diagnostic for `source`: the span's
    /// start, and the end of its underline, fall on char boundaries. Slicing
    /// the source line at any other byte panics.
    pub fn can_render(&self, source: &str) -> (r: bool)
        ensures
            r == renderable(self.span, source@),
    {
        let chars = chars_of(source);
        let total = source.as_bytes().len();
        let ghost s = source@;
        proof {
            lemma_byte_len_encode(s);
            assert(s.take(0) =~= Seq::<char>::empty());
            assert(s.take(s.len() as int) =~= s);
        }
        let start = if self.span.start < total {
            self.span.start
        } else {
            total
        };
        let end = if self.span.end < start {
            start
        } else if self.span.end > total {
            total
        } else {
            self.span.end
        };
        let ks = match find_boundary(&chars, 0, 0, start) {
            Some(k) => k,
            None => return false,
        };
        proof {
            let kc = char_index(s, start as int);
            assert(0 <= kc <= s.len() && byte_offset(s, kc) == start);
            if kc < ks {
                lemma_byte_offset_strict(s, kc, ks as int);
            } else if kc > ks {
                lemma_byte_offset_strict(s, ks as int, kc);
            }
            lemma_line_start_no_newline(s, ks as int);
            lemma_find_skips(s, line_start_before(s, ks as int), ks as int);
        }
        let mut le: usize = ks;
        let mut ble: usize = start;
        while le < chars.len() && chars[le] != '\n'
            invariant
                s == chars@,
                total == byte_len(s),
                byte_offset(s, s.len() as int) == total,
                ks <= le <= s.len(),
                ble == byte_offset(s, le as int),
                find_from(s, le as int, '\n') == find_from(s, ks as int, '\n'),
            decreases s.len() - le,
        {
            proof {
                lemma_byte_offset_step(s, le as int);
                lemma_byte_offset_mono(s, le as int + 1, s.len() as int);
            }
            ble = ble + char_width_exec(chars[le]);
            le = le + 1;
        }
        proof {
            lemma_find_from_bounds(s, ks as int, '\n');
            if le < s.len() {
                assert(find_from(s, le as int, '\n') == Some(le as int));
            } else {
                assert(find_from(s, le as int, '\n') is None);
            }
            assert(line_end_from(s, line_start_before(s, ks as int)) == le);
        }
        if end >= ble {
            proof {
                assert(byte_offset(s, le as int) == ble);
            }
            true
        } else {
            proof {
                lemma_byte_offset_mono(s, ks as int, le as int);
            }
            find_boundary(&chars, ks, start, end).is_some()
        }
    }

    /// Render this diagnostic as a multi-line, human-friendly report pointing
    /// at the offending span in `source`.
    ///
    /// Spans are byte offsets (see `lexing::Scanner::current_byte`), so the
    /// line and column are found by walking the source by bytes. Displayed
    /// columns and the underline width are still counted in chars, so a
    /// multi-byte character earlier on the line doesn't throw off the caret.
    ///
    /// Pass `color: true` to include ANSI color escapes.
    pub fn render(&self, source: &str, color: bool) -> (out: String)
        requires
            renderable(self.span, source@),
            source@.len() < usize::MAX,
        ensures
            out@ == spec_render(self.severity, self.message@, self.span, source@, color),
    {
        let chars = chars_of(source);
        let total = source.as_bytes().len();
        proof {
            lemma_byte_len_encode(source@);
        }
        let (ks, ls, le, ke, line_no) = locate(self.span, &chars, total);
        let column = ks - ls;
        let width = if ke - ks >= 1 {
            ke - ks
        } else {
            1
        };
        let sev = self.severity;
        let mut gutter = String::new();
        push_decimal(&mut gutter, line_no);
        let ghost g = gutter@;
        let line_text = source.substring_char(ls, le);

        let pad_len = gutter.as_str().unicode_len();
        let mut out = String::new();
        push_header_line(&mut out, sev, self.message.as_str(), color);
        push_location_line(&mut out, pad_len, line_no, column, color);
        push_blank_line(&mut out, pad_len, color);
        push_source_line(&mut out, gutter.as_str(), line_text, color);
        push_caret_line(&mut out, pad_len, column, width, sev, color);
        push_message_line(&mut out, pad_len, column, sev, self.message.as_str(), color);
        proof {
            assert(line_text@ == source@.subrange(ls as int, le as int));
        }
        out
    }
}

/// Some diagnostic in `diagnostics` is an error.
pub open spec fn spec_has_error(diagnostics: Seq<Diagnostic>) -> bool {
    exists|i: int| 0 <= i < diagnostics.len() && diagnostics[i].severity == Severity::Error
}

/// Does any of `diagnostics` have severity `Error`?
pub fn has_error(diagnostics: &[Diagnostic]) -> (r: bool)
    ensures
        r == spec_has_error(diagnostics@),
{
    let mut i: usize = 0;
    while i < diagnostics.len()
        invariant
            i <= diagnostics@.len(),
            forall|j: int| 0 <= j < i ==> diagnostics@[j].severity != Severity::Error,
        decreases diagnostics@.len() - i,
    {
        if diagnostics[i].severity == Severity::Error {
            return true;
        }
        i = i + 1;
    }
    false
}

} // verus!
