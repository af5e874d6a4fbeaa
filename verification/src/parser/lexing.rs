//! The scanner: turns source text into tokens and diagnostics.
use crate::parser::diagnostic::{Diagnostic, Severity};
use crate::parser::node::Spanned;
use crate::parser::span::Span;
use crate::parser::token::{SpecTokenKind, Token, TokenKind, TokenKindOf};
use crate::text::{
    contains_from, find_from, lemma_find_from_bounds,
    byte_len, byte_offset, char_width, char_width_exec, chars_equal_at, chars_of,
    lemma_byte_len_encode, lemma_byte_offset_mono, lemma_byte_offset_step, push_char,
    string_from_chars,
};
use vstd::prelude::*;
use vstd::string::StringExecFns;

verus! {

/// Whether `c` has the Unicode `Alphabetic` property, as `char::is_alphabetic`
/// decides it.
pub uninterp spec fn unicode_alphabetic(c: char) -> bool;

/// Trusted: calls `char::is_alphabetic`, whose result depends on `c` alone:
/// whether `c` has the Unicode `Alphabetic` property. Among ASCII chars
/// those are the letters `a`-`z` and `A`-`Z`; beyond ASCII the contract only
/// names the result.
#[verifier::external_body]
fn is_alphabetic(c: char) -> (r: bool)
    ensures
        r == unicode_alphabetic(c),
        (c as u32) < 0x80 ==> (r <==> (('a' <= c && c <= 'z') || ('A' <= c && c <= 'Z'))),
{
    c.is_alphabetic()
}

/// Whether `c` is alphabetic: among ASCII chars, exactly the letters
/// `a`-`z` and `A`-`Z`; beyond ASCII, as `char::is_alphabetic` decides.
pub open spec fn alphabetic(c: char) -> bool {
    if (c as u32) < 0x80 {
        ('a' <= c && c <= 'z') || ('A' <= c && c <= 'Z')
    } else {
        unicode_alphabetic(c)
    }
}

/// Whether `c` is alphabetic, as `alphabetic` says.
fn is_alphabetic_char(c: char) -> (r: bool)
    ensures
        r == alphabetic(c),
{
    is_alphabetic(c)
}

pub open spec fn is_ascii_digit(c: char) -> bool {
    '0' <= c && c <= '9'
}

fn is_ascii_digit_exec(c: char) -> (r: bool)
    ensures
        r == is_ascii_digit(c),
{
    '0' <= c && c <= '9'
}

/// May `c` continue an identifier?
pub open spec fn is_ident_char(c: char) -> bool {
    alphabetic(c) || c == '_' || is_ascii_digit(c)
}

/// End of a number literal whose digits continue at `i`; `saw_dot` records
/// whether a `.` was already taken in.
pub open spec fn number_end(src: Seq<char>, i: int, saw_dot: bool) -> int
    decreases src.len() - i,
{
    if i < 0 || i >= src.len() {
        i
    } else if src[i] == '.' {
        if saw_dot {
            i
        } else {
            number_end(src, i + 1, true)
        }
    } else if !is_ascii_digit(src[i]) {
        i
    } else {
        number_end(src, i + 1, saw_dot)
    }
}

/// End of an identifier whose chars continue at `i`.
pub open spec fn ident_end(src: Seq<char>, i: int) -> int
    decreases src.len() - i,
{
    if i < 0 || i >= src.len() {
        i
    } else if is_ident_char(src[i]) {
        ident_end(src, i + 1)
    } else {
        i
    }
}

/// The keyword spelled by `word`, or an identifier.
pub open spec fn keyword_or_identifier(word: Seq<char>) -> SpecTokenKind {
    if word == seq!['a', 'n', 'd'] {
        TokenKindOf::And
    } else if word == seq!['c', 'l', 'a', 's', 's'] {
        TokenKindOf::Class
    } else if word == seq!['e', 'l', 's', 'e'] {
        TokenKindOf::Else
    } else if word == seq!['f', 'a', 'l', 's', 'e'] {
        TokenKindOf::False
    } else if word == seq!['f', 'o', 'r'] {
        TokenKindOf::For
    } else if word == seq!['f', 'u', 'n'] {
        TokenKindOf::Fun
    } else if word == seq!['i', 'f'] {
        TokenKindOf::If
    } else if word == seq!['n', 'i', 'l'] {
        TokenKindOf::Nil
    } else if word == seq!['o', 'r'] {
        TokenKindOf::Or
    } else if word == seq!['p', 'r', 'i', 'n', 't'] {
        TokenKindOf::Print
    } else if word == seq!['r', 'e', 't', 'u', 'r', 'n'] {
        TokenKindOf::Return
    } else if word == seq!['s', 'u', 'p', 'e', 'r'] {
        TokenKindOf::Super
    } else if word == seq!['t', 'h', 'i', 's'] {
        TokenKindOf::This
    } else if word == seq!['t', 'r', 'u', 'e'] {
        TokenKindOf::True
    } else if word == seq!['v', 'a', 'r'] {
        TokenKindOf::Var
    } else if word == seq!['w', 'h', 'i', 'l', 'e'] {
        TokenKindOf::While
    } else {
        TokenKindOf::Identifier(word)
    }
}

/// The reserved word that spells the keyword token `k`, if `k` is one.
pub open spec fn keyword_text(k: SpecTokenKind) -> Option<Seq<char>> {
    match k {
        TokenKindOf::And => Some("and"@),
        TokenKindOf::Class => Some("class"@),
        TokenKindOf::Else => Some("else"@),
        TokenKindOf::False => Some("false"@),
        TokenKindOf::For => Some("for"@),
        TokenKindOf::Fun => Some("fun"@),
        TokenKindOf::If => Some("if"@),
        TokenKindOf::Nil => Some("nil"@),
        TokenKindOf::Or => Some("or"@),
        TokenKindOf::Print => Some("print"@),
        TokenKindOf::Return => Some("return"@),
        TokenKindOf::Super => Some("super"@),
        TokenKindOf::This => Some("this"@),
        TokenKindOf::True => Some("true"@),
        TokenKindOf::Var => Some("var"@),
        TokenKindOf::While => Some("while"@),
        _ => None,
    }
}

/// Words and keywords: each reserved word of Lox reads as its keyword
/// token; a word that reads as a keyword token is that keyword's reserved
/// word; any other word reads as an identifier named by the word itself.
pub proof fn law_reserved_words_are_keywords(k: SpecTokenKind, word: Seq<char>)
    ensures
        keyword_text(k) matches Some(t) ==> keyword_or_identifier(t) == k,
        keyword_or_identifier(word) matches TokenKindOf::Identifier(x) ==> x == word,
        !(keyword_or_identifier(word) is Identifier) ==> keyword_text(keyword_or_identifier(word)) == Some(word),
{
    reveal_strlit("and");
    reveal_strlit("class");
    reveal_strlit("else");
    reveal_strlit("false");
    reveal_strlit("for");
    reveal_strlit("fun");
    reveal_strlit("if");
    reveal_strlit("nil");
    reveal_strlit("or");
    reveal_strlit("print");
    reveal_strlit("return");
    reveal_strlit("super");
    reveal_strlit("this");
    reveal_strlit("true");
    reveal_strlit("var");
    reveal_strlit("while");
    if let Some(t) = keyword_text(k) {
        assert(t.len() >= 2);
        assert(keyword_or_identifier(t) == k) by {
            assert("and"@ =~= seq!['a', 'n', 'd']);
            assert("class"@ =~= seq!['c', 'l', 'a', 's', 's']);
            assert("else"@ =~= seq!['e', 'l', 's', 'e']);
            assert("false"@ =~= seq!['f', 'a', 'l', 's', 'e']);
            assert("for"@ =~= seq!['f', 'o', 'r']);
            assert("fun"@ =~= seq!['f', 'u', 'n']);
            assert("if"@ =~= seq!['i', 'f']);
            assert("nil"@ =~= seq!['n', 'i', 'l']);
            assert("or"@ =~= seq!['o', 'r']);
            assert("print"@ =~= seq!['p', 'r', 'i', 'n', 't']);
            assert("return"@ =~= seq!['r', 'e', 't', 'u', 'r', 'n']);
            assert("super"@ =~= seq!['s', 'u', 'p', 'e', 'r']);
            assert("this"@ =~= seq!['t', 'h', 'i', 's']);
            assert("true"@ =~= seq!['t', 'r', 'u', 'e']);
            assert("var"@ =~= seq!['v', 'a', 'r']);
            assert("while"@ =~= seq!['w', 'h', 'i', 'l', 'e']);
        }
    }
    assert(keyword_or_identifier(word) !is Identifier ==> keyword_text(keyword_or_identifier(word)) == Some(word)) by {
        assert("and"@ =~= seq!['a', 'n', 'd']);
        assert("class"@ =~= seq!['c', 'l', 'a', 's', 's']);
        assert("else"@ =~= seq!['e', 'l', 's', 'e']);
        assert("false"@ =~= seq!['f', 'a', 'l', 's', 'e']);
        assert("for"@ =~= seq!['f', 'o', 'r']);
        assert("fun"@ =~= seq!['f', 'u', 'n']);
        assert("if"@ =~= seq!['i', 'f']);
        assert("nil"@ =~= seq!['n', 'i', 'l']);
        assert("or"@ =~= seq!['o', 'r']);
        assert("print"@ =~= seq!['p', 'r', 'i', 'n', 't']);
        assert("return"@ =~= seq!['r', 'e', 't', 'u', 'r', 'n']);
        assert("super"@ =~= seq!['s', 'u', 'p', 'e', 'r']);
        assert("this"@ =~= seq!['t', 'h', 'i', 's']);
        assert("true"@ =~= seq!['t', 'r', 'u', 'e']);
        assert("var"@ =~= seq!['v', 'a', 'r']);
        assert("while"@ =~= seq!['w', 'h', 'i', 'l', 'e']);
    }
}

/// What the scanner does with the text that starts at one char index.
pub enum Step {
    /// Nothing to emit (whitespace or a comment); go on at `next`.
    Skip { next: int },
    /// A token of the given kind covering `start..next`.
    Emit { kind: SpecTokenKind, next: int },
    /// An error with the given message covering `start..next`.
    Complain { message: Seq<char>, next: int },
    /// A string that never closes: an error covering the rest of the input,
    /// and scanning stops.
    Unterminated,
    /// A line comment that no newline ends: the scanner never finishes.
    Stuck,
}

pub open spec fn unexpected_char_message(c: char) -> Seq<char> {
    "unexpected input char: '"@ + seq![c] + "'"@
}

/// One step of the scanner at char index `start`.
pub open spec fn step(src: Seq<char>, start: int) -> Step
    recommends
        0 <= start < src.len(),
{
    let c = src[start];
    let p = start + 1;
    let next_is = |x: char| p < src.len() && src[p] == x;
    if c == '(' {
        Step::Emit { kind: TokenKindOf::LeftParen, next: p }
    } else if c == ')' {
        Step::Emit { kind: TokenKindOf::RightParen, next: p }
    } else if c == '{' {
        Step::Emit { kind: TokenKindOf::LeftBrace, next: p }
    } else if c == '}' {
        Step::Emit { kind: TokenKindOf::RightBrace, next: p }
    } else if c == ',' {
        Step::Emit { kind: TokenKindOf::Comma, next: p }
    } else if c == '.' {
        Step::Emit { kind: TokenKindOf::Dot, next: p }
    } else if c == '-' {
        Step::Emit { kind: TokenKindOf::Minus, next: p }
    } else if c == '+' {
        Step::Emit { kind: TokenKindOf::Plus, next: p }
    } else if c == ';' {
        Step::Emit { kind: TokenKindOf::Semicolon, next: p }
    } else if c == '*' {
        Step::Emit { kind: TokenKindOf::Star, next: p }
    } else if c == '!' {
        if next_is('=') {
            Step::Emit { kind: TokenKindOf::BangEqual, next: p + 1 }
        } else {
            Step::Emit { kind: TokenKindOf::Bang, next: p }
        }
    } else if c == '=' {
        if next_is('=') {
            Step::Emit { kind: TokenKindOf::EqualEqual, next: p + 1 }
        } else {
            Step::Emit { kind: TokenKindOf::Equal, next: p }
        }
    } else if c == '<' {
        if next_is('=') {
            Step::Emit { kind: TokenKindOf::LessEqual, next: p + 1 }
        } else {
            Step::Emit { kind: TokenKindOf::Less, next: p }
        }
    } else if c == '>' {
        if next_is('=') {
            Step::Emit { kind: TokenKindOf::GreaterEqual, next: p + 1 }
        } else {
            Step::Emit { kind: TokenKindOf::Greater, next: p }
        }
    } else if c == '/' {
        if next_is('/') {
            match find_from(src, p + 1, '\n') {
                Some(n) => Step::Skip { next: n },
                None => Step::Stuck,
            }
        } else {
            Step::Emit { kind: TokenKindOf::Slash, next: p }
        }
    } else if c == ' ' || c == '\t' || c == '\r' || c == '\n' {
        Step::Skip { next: p }
    } else if c == '"' {
        match find_from(src, p, '"') {
            Some(q) => Step::Emit { kind: TokenKindOf::String(src.subrange(p, q)), next: q + 1 },
            None => Step::Unterminated,
        }
    } else if is_ascii_digit(c) {
        let e = number_end(src, p, false);
        Step::Emit { kind: TokenKindOf::Number(src.subrange(start, e)), next: e }
    } else if alphabetic(c) {
        let e = ident_end(src, p);
        Step::Emit { kind: keyword_or_identifier(src.subrange(start, e)), next: e }
    } else {
        Step::Complain { message: unexpected_char_message(c), next: p }
    }
}

pub proof fn lemma_number_end_bounds(src: Seq<char>, i: int, saw_dot: bool)
    requires
        0 <= i <= src.len(),
    ensures
        i <= number_end(src, i, saw_dot) <= src.len(),
    decreases src.len() - i,
{
    if i < src.len() {
        if src[i] == '.' {
            if !saw_dot {
                lemma_number_end_bounds(src, i + 1, true);
            }
        } else if is_ascii_digit(src[i]) {
            lemma_number_end_bounds(src, i + 1, saw_dot);
        }
    }
}

pub proof fn lemma_ident_end_bounds(src: Seq<char>, i: int)
    requires
        0 <= i <= src.len(),
    ensures
        i <= ident_end(src, i) <= src.len(),
    decreases src.len() - i,
{
    if i < src.len() && is_ident_char(src[i]) {
        lemma_ident_end_bounds(src, i + 1);
    }
}

/// Each step moves strictly forward and stays within the input.
pub proof fn lemma_step_advances(src: Seq<char>, start: int)
    requires
        0 <= start < src.len(),
    ensures
        step(src, start) matches Step::Skip { next } ==> start < next <= src.len(),
        step(src, start) matches Step::Emit { next, .. } ==> start < next <= src.len(),
        step(src, start) matches Step::Complain { next, .. } ==> start < next <= src.len(),
{
    let p = start + 1;
    lemma_find_from_bounds(src, p + 1, '\n');
    lemma_find_from_bounds(src, p, '"');
    lemma_number_end_bounds(src, p, false);
    lemma_ident_end_bounds(src, p);
}

/// Every token that scanning from `pos` finds lies between `pos` and the end.
pub proof fn lemma_scan_bounds(src: Seq<char>, pos: int)
    requires
        0 <= pos <= src.len(),
        scan_from(src, pos) is Some,
    ensures
        forall|i: int|
            0 <= i < scan_from(src, pos).unwrap().0.len() ==> {
                let t = #[trigger] scan_from(src, pos).unwrap().0[i];
                pos <= t.1 <= t.2 <= src.len()
            },
    decreases src.len() - pos,
{
    if pos < src.len() {
        lemma_step_advances(src, pos);
        match step(src, pos) {
            Step::Skip { next } => lemma_scan_bounds(src, next),
            Step::Emit { kind, next } => {
                lemma_scan_bounds(src, next);
                let rest = scan_from(src, next).unwrap().0;
                let all = scan_from(src, pos).unwrap().0;
                assert forall|i: int| 0 <= i < all.len() implies {
                    let t = #[trigger] all[i];
                    pos <= t.1 <= t.2 <= src.len()
                } by {
                    if i > 0 {
                        assert(all[i] == rest[i - 1]);
                    }
                }
            },
            Step::Complain { next, .. } => lemma_scan_bounds(src, next),
            _ => {},
        }
    }
}

/// A token that a step emits covers the chars it was read from: an
/// identifier's name is those chars, a string's text the chars between its
/// quotes.
pub proof fn lemma_step_text(src: Seq<char>, start: int)
    requires
        0 <= start < src.len(),
    ensures
        step(src, start) matches Step::Emit { kind, next } ==> {
            &&& (kind matches TokenKindOf::Identifier(x) ==> x == src.subrange(start, next)
                && keyword_or_identifier(x) == kind)
            &&& (kind matches TokenKindOf::String(x) ==> x == src.subrange(start + 1, next - 1)
                && src[start] == '"' && src[next - 1] == '"' && start + 2 <= next)
        },
{
    lemma_find_from_bounds(src, start + 1, '"');
}

/// Scanning gives its tokens in source order, apart from one another, each
/// covering at least one char; an identifier's name is the chars its token
/// covers, and a string's text the chars between the quotes that its token
/// covers.
pub proof fn law_scanned_tokens_follow_the_source(src: Seq<char>, pos: int)
    requires
        0 <= pos <= src.len(),
        scan_from(src, pos) is Some,
    ensures
        ({
            let ts = scan_from(src, pos).unwrap().0;
            &&& forall|i: int| 0 <= i < ts.len() ==> pos <= (#[trigger] ts[i]).1 < ts[i].2 <= src.len()
            &&& forall|i: int| 0 <= i < ts.len() - 1 ==> (#[trigger] ts[i]).2 <= ts[i + 1].1
            &&& forall|i: int|
                0 <= i < ts.len() ==> ((#[trigger] ts[i]).0 matches TokenKindOf::Identifier(x) ==> x
                    == src.subrange(ts[i].1, ts[i].2))
            &&& forall|i: int|
                0 <= i < ts.len() ==> ((#[trigger] ts[i]).0 matches TokenKindOf::String(x) ==> x
                    == src.subrange(ts[i].1 + 1, ts[i].2 - 1) && src[ts[i].1] == '"' && src[ts[i].2 - 1] == '"'
                    && ts[i].1 + 2 <= ts[i].2)
        }),
    decreases src.len() - pos,
{
    if pos < src.len() {
        lemma_step_advances(src, pos);
        lemma_step_text(src, pos);
        match step(src, pos) {
            Step::Skip { next } => law_scanned_tokens_follow_the_source(src, next),
            Step::Complain { next, .. } => law_scanned_tokens_follow_the_source(src, next),
            Step::Emit { kind, next } => {
                law_scanned_tokens_follow_the_source(src, next);
                let rest = scan_from(src, next).unwrap().0;
                let all = scan_from(src, pos).unwrap().0;
                assert(all == seq![(kind, pos, next)] + rest);
                assert forall|i: int| 0 <= i < all.len() implies all[i] == (if i == 0 {
                    (kind, pos, next)
                } else {
                    rest[i - 1]
                }) by {}
                assert forall|i: int| 0 <= i < all.len() - 1 implies (#[trigger] all[i]).2 <= all[i + 1].1 by {
                    if i > 0 {
                        assert(all[i] == rest[i - 1] && all[i + 1] == rest[i]);
                    } else {
                        assert(all[1] == rest[0]);
                    }
                }
            },
            _ => {},
        }
    }
}

/// No identifier that scanning gives is named by a reserved word: reserved
/// words scan to their keyword tokens.
pub proof fn law_scanned_identifiers_are_not_reserved(src: Seq<char>, pos: int, k: SpecTokenKind)
    requires
        0 <= pos <= src.len(),
        scan_from(src, pos) is Some,
    ensures
        forall|i: int|
            0 <= i < scan_from(src, pos).unwrap().0.len() ==> ((#[trigger] scan_from(src, pos).unwrap().0[i]).0 matches TokenKindOf::Identifier(x)
                ==> keyword_text(k) != Some(x)),
    decreases src.len() - pos,
{
    if pos < src.len() {
        lemma_step_advances(src, pos);
        lemma_step_text(src, pos);
        match step(src, pos) {
            Step::Skip { next } => law_scanned_identifiers_are_not_reserved(src, next, k),
            Step::Complain { next, .. } => law_scanned_identifiers_are_not_reserved(src, next, k),
            Step::Emit { kind, next } => {
                law_scanned_identifiers_are_not_reserved(src, next, k);
                let rest = scan_from(src, next).unwrap().0;
                let all = scan_from(src, pos).unwrap().0;
                assert(all == seq![(kind, pos, next)] + rest);
                assert forall|i: int| 0 <= i < all.len() implies ((#[trigger] all[i]).0 matches TokenKindOf::Identifier(x)
                    ==> keyword_text(k) != Some(x)) by {
                    if i > 0 {
                        assert(all[i] == rest[i - 1]);
                    } else if let TokenKindOf::Identifier(x) = kind {
                        law_reserved_words_are_keywords(k, x);
                    }
                }
            },
            _ => {},
        }
    }
}

/// The text that spells the symbol token `k`, if `k` is one.
pub open spec fn symbol_text(k: SpecTokenKind) -> Option<Seq<char>> {
    match k {
        TokenKindOf::LeftParen => Some(seq!['(']),
        TokenKindOf::RightParen => Some(seq![')']),
        TokenKindOf::LeftBrace => Some(seq!['{']),
        TokenKindOf::RightBrace => Some(seq!['}']),
        TokenKindOf::Comma => Some(seq![',']),
        TokenKindOf::Dot => Some(seq!['.']),
        TokenKindOf::Minus => Some(seq!['-']),
        TokenKindOf::Plus => Some(seq!['+']),
        TokenKindOf::Semicolon => Some(seq![';']),
        TokenKindOf::Slash => Some(seq!['/']),
        TokenKindOf::Star => Some(seq!['*']),
        TokenKindOf::Bang => Some(seq!['!']),
        TokenKindOf::BangEqual => Some(seq!['!', '=']),
        TokenKindOf::Equal => Some(seq!['=']),
        TokenKindOf::EqualEqual => Some(seq!['=', '=']),
        TokenKindOf::Greater => Some(seq!['>']),
        TokenKindOf::GreaterEqual => Some(seq!['>', '=']),
        TokenKindOf::Less => Some(seq!['<']),
        TokenKindOf::LessEqual => Some(seq!['<', '=']),
        _ => None,
    }
}

/// The text that always spells tokens of kind `k`: its symbol or its
/// reserved word.
pub open spec fn spelling(k: SpecTokenKind) -> Option<Seq<char>> {
    match symbol_text(k) {
        Some(t) => Some(t),
        None => keyword_text(k),
    }
}

proof fn lemma_step_spelling(src: Seq<char>, start: int)
    requires
        0 <= start < src.len(),
    ensures
        step(src, start) matches Step::Emit { kind, next } ==> (spelling(kind) matches Some(t) ==> src.subrange(start, next) == t),
{
    lemma_step_advances(src, start);
    lemma_step_text(src, start);
    if let Step::Emit { kind, next } = step(src, start) {
        if let Some(t) = symbol_text(kind) {
            assert(src.subrange(start, next) =~= t);
        } else if let Some(t) = keyword_text(kind) {
            let c = src[start];
            if !(is_ascii_digit(c)) && alphabetic(c) {
                law_reserved_words_are_keywords(kind, src.subrange(start, ident_end(src, start + 1)));
            }
        }
    }
}

/// Every token whose kind has a fixed spelling, a symbol or a reserved
/// word, covers exactly that spelling in the source.
pub proof fn law_scanned_tokens_cover_their_spelling(src: Seq<char>, pos: int)
    requires
        0 <= pos <= src.len(),
        scan_from(src, pos) is Some,
    ensures
        forall|i: int|
            0 <= i < scan_from(src, pos).unwrap().0.len() ==> (spelling((#[trigger] scan_from(src, pos).unwrap().0[i]).0) matches Some(t)
                ==> src.subrange(scan_from(src, pos).unwrap().0[i].1, scan_from(src, pos).unwrap().0[i].2) == t),
    decreases src.len() - pos,
{
    if pos < src.len() {
        lemma_step_advances(src, pos);
        lemma_step_spelling(src, pos);
        match step(src, pos) {
            Step::Skip { next } => law_scanned_tokens_cover_their_spelling(src, next),
            Step::Complain { next, .. } => law_scanned_tokens_cover_their_spelling(src, next),
            Step::Emit { kind, next } => {
                law_scanned_tokens_cover_their_spelling(src, next);
                let rest = scan_from(src, next).unwrap().0;
                let all = scan_from(src, pos).unwrap().0;
                assert(all == seq![(kind, pos, next)] + rest);
                assert forall|i: int| 0 <= i < all.len() implies (spelling((#[trigger] all[i]).0) matches Some(t)
                    ==> src.subrange(all[i].1, all[i].2) == t) by {
                    if i > 0 {
                        assert(all[i] == rest[i - 1]);
                    }
                }
            },
            _ => {},
        }
    }
}

/// A token as the scanner's specification describes it: a kind and the char
/// indices it covers.
pub type SpecToken = (SpecTokenKind, int, int);

/// A diagnostic as the scanner's specification describes it: a message and
/// the char indices it covers.
pub type SpecDiagnostic = (Seq<char>, int, int);

/// What scanning `src` from char index `pos` on produces, or `None` if the
/// scanner never finishes.
pub open spec fn scan_from(src: Seq<char>, pos: int) -> Option<(Seq<SpecToken>, Seq<SpecDiagnostic>)>
    decreases src.len() - pos,
{
    if pos < 0 || pos >= src.len() {
        Some((Seq::empty(), Seq::empty()))
    } else {
        proof {
            lemma_step_advances(src, pos);
        }
        match step(src, pos) {
            Step::Skip { next } => scan_from(src, next),
            Step::Emit { kind, next } => match scan_from(src, next) {
                Some((ts, ds)) => Some((seq![(kind, pos, next)] + ts, ds)),
                None => None,
            },
            Step::Complain { message, next } => match scan_from(src, next) {
                Some((ts, ds)) => Some((ts, seq![(message, pos, next)] + ds)),
                None => None,
            },
            Step::Unterminated => Some(
                (Seq::empty(), seq![("unexpected end of file"@, pos, src.len() as int)]),
            ),
            Step::Stuck => None,
        }
    }
}

/// The scanner finishes on `src`: no line comment runs into the end of the
/// input without a newline.
pub open spec fn scan_finishes(src: Seq<char>) -> bool {
    scan_from(src, 0) is Some
}

pub open spec fn spec_span(src: Seq<char>, start: int, end: int) -> Span {
    Span { start: byte_offset(src, start) as usize, end: byte_offset(src, end) as usize }
}

/// `t` is the token that `st` describes.
pub open spec fn token_is(src: Seq<char>, t: Token, st: SpecToken) -> bool {
    &&& t.node@ == st.0
    &&& t.span == spec_span(src, st.1, st.2)
}

/// `d` is the error that `sd` describes.
pub open spec fn diagnostic_is(src: Seq<char>, d: Diagnostic, sd: SpecDiagnostic) -> bool {
    &&& d.severity == Severity::Error
    &&& d.message@ == sd.0
    &&& d.span == spec_span(src, sd.1, sd.2)
}

/// The tokens and diagnostics that the scanner produces for `src`.
pub open spec fn scan_result_is(src: Seq<char>, tokens: Seq<Token>, diagnostics: Seq<Diagnostic>) -> bool {
    let (ts, ds) = scan_from(src, 0).unwrap();
    &&& tokens.len() == ts.len()
    &&& forall|i: int| 0 <= i < ts.len() ==> token_is(src, #[trigger] tokens[i], ts[i])
    &&& diagnostics.len() == ds.len()
    &&& forall|i: int| 0 <= i < ds.len() ==> diagnostic_is(src, #[trigger] diagnostics[i], ds[i])
}


/// Scans source text one token at a time.
pub struct Scanner {
    /// The source, as chars.
    pub source: Vec<char>,
    pub tokens: Vec<Token>,
    pub diagnostics: Vec<Diagnostic>,
    /// Char index of the next char to consider.
    pub current: usize,
    /// When building up a token, it may encapsulate multiple chars from the
    /// source. This field is used to keep track of the start of the token
    /// being considered as it is built up.
    pub cur_token_start: usize,
    /// Byte offset of `current`.
    pub current_byte: usize,
    /// Byte offset of `cur_token_start`.
    pub token_start_byte: usize,
}

pub type ScanResult = (Vec<Token>, Vec<Diagnostic>);

impl Scanner {
    /// The positions are consistent with the source.
    pub open spec fn wf(&self) -> bool {
        &&& self.current <= self.source@.len()
        &&& self.cur_token_start <= self.current
        &&& byte_len(self.source@) <= usize::MAX
        &&& self.current_byte == byte_offset(self.source@, self.current as int)
        &&& self.token_start_byte == byte_offset(self.source@, self.cur_token_start as int)
    }

    /// A scanner at the start of `source_str`, with nothing scanned yet.
    pub fn new(source_str: &str) -> (r: Self)
        ensures
            r.wf(),
            r.source@ == source_str@,
            r.current == 0,
            r.tokens@.len() == 0,
            r.diagnostics@.len() == 0,
    {
        let source = chars_of(source_str);
        let _total = source_str.as_bytes().len();
        proof {
            lemma_byte_len_encode(source_str@);
            assert(source@.take(0) =~= Seq::<char>::empty());
        }
        Self {
            source,
            current: 0,
            cur_token_start: 0,
            current_byte: 0,
            token_start_byte: 0,
            tokens: Vec::new(),
            diagnostics: Vec::new(),
        }
    }

    /// The span of the token being built: from its start to the current
    /// position. The token must not be empty.
    fn current_span(&self) -> (r: Span)
        requires
            self.wf(),
            self.cur_token_start < self.current,
        ensures
            r == spec_span(self.source@, self.cur_token_start as int, self.current as int),
    {
        let start = self.token_start_byte;
        let end = self.current_byte;
        Span { start, end }
    }

    /// Records a token of kind `kind` covering the token being built.
    fn push_token(&mut self, kind: TokenKind)
        requires
            old(self).wf(),
            old(self).cur_token_start < old(self).current,
        ensures
            final(self).tokens@ == old(self).tokens@.push(
                Spanned {
                    span: spec_span(old(self).source@, old(self).cur_token_start as int, old(self).current as int),
                    node: kind,
                },
            ),
            final(self).source@ == old(self).source@,
            final(self).diagnostics == old(self).diagnostics,
            final(self).current == old(self).current,
            final(self).cur_token_start == old(self).cur_token_start,
            final(self).current_byte == old(self).current_byte,
            final(self).token_start_byte == old(self).token_start_byte,
    {
        let span = self.current_span();
        let token = Spanned { span, node: kind };
        self.tokens.push(token);
    }

    /// Takes the next char, if there is one, and moves past it.
    pub fn advance(&mut self) -> (r: Option<char>)
        requires
            old(self).wf(),
        ensures
            final(self).wf(),
            old(self).current < old(self).source@.len() ==> r == Some(old(self).source@[old(self).current as int])
                && final(self).current == old(self).current + 1,
            old(self).current >= old(self).source@.len() ==> r is None && final(self).current == old(self).current,
            final(self).source@ == old(self).source@,
            final(self).tokens == old(self).tokens,
            final(self).diagnostics == old(self).diagnostics,
            final(self).cur_token_start == old(self).cur_token_start,
    {
        if self.current < self.source.len() {
            let c = self.source[self.current];
            proof {
                lemma_byte_offset_step(self.source@, self.current as int);
                lemma_byte_offset_mono(self.source@, self.current as int + 1, self.source@.len() as int);
                assert(self.source@.take(self.source@.len() as int) =~= self.source@);
            }
            self.current_byte = self.current_byte + char_width_exec(c);
            self.current = self.current + 1;
            Some(c)
        } else {
            None
        }
    }

    /// The next char, if there is one.
    pub fn peek(&self) -> (r: Option<char>)
        ensures
            self.current < self.source@.len() ==> r == Some(self.source@[self.current as int]),
            self.current >= self.source@.len() ==> r is None,
    {
        if self.current < self.source.len() {
            Some(self.source[self.current])
        } else {
            None
        }
    }

    /// Is the next char the expected char?
    /// If so, advances and returns true. Otherwise, returns false.
    pub fn match_next(&mut self, expected: char) -> (r: bool)
        requires
            old(self).wf(),
        ensures
            final(self).wf(),
            r == (old(self).current < old(self).source@.len()
                && old(self).source@[old(self).current as int] == expected),
            r ==> final(self).current == old(self).current + 1,
            !r ==> final(self).current == old(self).current,
            final(self).source@ == old(self).source@,
            final(self).tokens == old(self).tokens,
            final(self).diagnostics == old(self).diagnostics,
            final(self).cur_token_start == old(self).cur_token_start,
    {
        if self.current < self.source.len() && self.source[self.current] == expected {
            self.advance();
            true
        } else {
            false
        }
    }

    /// The tokens in `tokens` from index `from` on are those of `ts`.
    pub open spec fn tokens_from(&self, from: int, ts: Seq<SpecToken>) -> bool {
        &&& self.tokens@.len() == from + ts.len()
        &&& forall|i: int| 0 <= i < ts.len() ==> token_is(self.source@, #[trigger] self.tokens@[from + i], ts[i])
    }

    /// The diagnostics from index `from` on are those of `ds`.
    pub open spec fn diagnostics_from(&self, from: int, ds: Seq<SpecDiagnostic>) -> bool {
        &&& self.diagnostics@.len() == from + ds.len()
        &&& forall|i: int| 0 <= i < ds.len() ==> diagnostic_is(self.source@, #[trigger] self.diagnostics@[from + i], ds[i])
    }

    /// Scans the rest of the source, appending what it finds to `tokens` and
    /// `diagnostics`.
    pub fn scan(&mut self)
        requires
            old(self).wf(),
            scan_from(old(self).source@, old(self).current as int) is Some,
        ensures
            final(self).wf(),
            final(self).source@ == old(self).source@,
            ({
                let (ts, ds) = scan_from(old(self).source@, old(self).current as int).unwrap();
                &&& final(self).tokens_from(old(self).tokens@.len() as int, ts)
                &&& final(self).diagnostics_from(old(self).diagnostics@.len() as int, ds)
            }),
            forall|i: int| 0 <= i < old(self).tokens@.len() ==> final(self).tokens@[i] == old(self).tokens@[i],
            forall|i: int|
                0 <= i < old(self).diagnostics@.len() ==> final(self).diagnostics@[i] == old(self).diagnostics@[i],
    {
        let ghost src = self.source@;
        let ghost full = scan_from(src, self.current as int).unwrap();
        let ghost t0 = self.tokens@.len() as int;
        let ghost d0 = self.diagnostics@.len() as int;
        let ghost old_tokens = self.tokens@;
        let ghost old_diags = self.diagnostics@;
        let ghost mut gts: Seq<SpecToken> = Seq::empty();
        let ghost mut gds: Seq<SpecDiagnostic> = Seq::empty();
        proof {
            assert(full.0 =~= gts + full.0);
            assert(full.1 =~= gds + full.1);
        }
        loop
            invariant
                self.wf(),
                self.source@ == src,
                src == old(self).source@,
                t0 == old_tokens.len(),
                d0 == old_diags.len(),
                old_tokens == old(self).tokens@,
                old_diags == old(self).diagnostics@,
                full == scan_from(src, old(self).current as int).unwrap(),
                scan_from(src, self.current as int) is Some,
                full.0 == gts + scan_from(src, self.current as int).unwrap().0,
                full.1 == gds + scan_from(src, self.current as int).unwrap().1,
                self.tokens_from(t0, gts),
                self.diagnostics_from(d0, gds),
                forall|i: int| 0 <= i < t0 ==> self.tokens@[i] == old_tokens[i],
                forall|i: int| 0 <= i < d0 ==> self.diagnostics@[i] == old_diags[i],
            ensures
                self.wf(),
                self.source@ == src,
                self.tokens_from(t0, full.0),
                self.diagnostics_from(d0, full.1),
                forall|i: int| 0 <= i < t0 ==> self.tokens@[i] == old_tokens[i],
                forall|i: int| 0 <= i < d0 ==> self.diagnostics@[i] == old_diags[i],
            decreases src.len() - self.current,
        {
            // Each iteration begins a fresh token, so anchor its span here.
            // Without this, tokens with no whitespace between them (`a=a`)
            // would all share the span start of the last whitespace boundary.
            let start = self.current;
            self.cur_token_start = start;
            self.token_start_byte = self.current_byte;
            let ghost rest = scan_from(src, start as int).unwrap();
            let ghost prev_tokens = self.tokens@;
            let ghost prev_diags = self.diagnostics@;
            assert(prev_tokens.len() == t0 + gts.len());
            assert(prev_diags.len() == d0 + gds.len());
            let current = match self.advance() {
                Some(c) => c,
                None => {
                    assert(rest.0 =~= Seq::<SpecToken>::empty());
                    assert(gts + rest.0 =~= gts);
                    assert(gds + rest.1 =~= gds);
                    break;
                },
            };
            proof {
                lemma_step_advances(src, start as int);
            }
            let stop = self.scan_token(start, current);
            proof {
                let st = step(src, start as int);
                match st {
                    Step::Skip { next } => {},
                    Step::Emit { kind, next } => {
                        let r2 = scan_from(src, next).unwrap();
                        assert(rest.0 == seq![(kind, start as int, next)] + r2.0);
                        assert(full.0 =~= gts.push((kind, start as int, next)) + r2.0);
                        assert(self.tokens@ =~= prev_tokens.push(self.tokens@.last()));
                        lemma_extend_tokens(src, prev_tokens, self.tokens@, t0, gts, (kind, start as int, next), old_tokens);
                        let g2 = gts.push((kind, start as int, next));
                        gts = g2;
                    },
                    Step::Complain { message, next } => {
                        let r2 = scan_from(src, next).unwrap();
                        assert(rest.1 == seq![(message, start as int, next)] + r2.1);
                        assert(full.1 =~= gds.push((message, start as int, next)) + r2.1);
                        assert(self.diagnostics@ =~= prev_diags.push(self.diagnostics@.last()));
                        lemma_extend_diagnostics(src, prev_diags, self.diagnostics@, d0, gds, (message, start as int, next), old_diags);
                        let g2 = gds.push((message, start as int, next));
                        gds = g2;
                    },
                    Step::Unterminated => {
                        let d = ("unexpected end of file"@, start as int, src.len() as int);
                        assert(rest.0 =~= Seq::<SpecToken>::empty());
                        assert(full.0 =~= gts);
                        assert(full.1 =~= gds.push(d));
                        assert(self.diagnostics@ =~= prev_diags.push(self.diagnostics@.last()));
                        lemma_extend_diagnostics(src, prev_diags, self.diagnostics@, d0, gds, d, old_diags);
                        let g2 = gds.push(d);
                        gds = g2;
                    },
                    Step::Stuck => {},
                }
            }
            if stop {
                return;
            }
        }
    }

    /// Handles the char `c` at index `start`, which `advance` has just taken.
    /// Returns whether scanning must stop.
    fn scan_token(&mut self, start: usize, c: char) -> (stop: bool)
        requires
            old(self).wf(),
            old(self).cur_token_start == start,
            old(self).current == start + 1,
            start < old(self).source@.len(),
            old(self).source@[start as int] == c,
            !(step(old(self).source@, start as int) is Stuck),
        ensures
            final(self).wf(),
            final(self).source@ == old(self).source@,
            ({
                let src = old(self).source@;
                let span_to = |next: int| spec_span(src, start as int, next);
                match step(src, start as int) {
                    Step::Skip { next } => {
                        &&& !stop
                        &&& final(self).current == next
                        &&& final(self).tokens == old(self).tokens
                        &&& final(self).diagnostics == old(self).diagnostics
                    },
                    Step::Emit { kind, next } => {
                        &&& !stop
                        &&& final(self).current == next
                        &&& final(self).tokens@.len() == old(self).tokens@.len() + 1
                        &&& final(self).tokens@.drop_last() == old(self).tokens@
                        &&& token_is(src, final(self).tokens@.last(), (kind, start as int, next))
                        &&& final(self).diagnostics == old(self).diagnostics
                    },
                    Step::Complain { message, next } => {
                        &&& !stop
                        &&& final(self).current == next
                        &&& final(self).tokens == old(self).tokens
                        &&& final(self).diagnostics@.len() == old(self).diagnostics@.len() + 1
                        &&& final(self).diagnostics@.drop_last() == old(self).diagnostics@
                        &&& diagnostic_is(src, final(self).diagnostics@.last(), (message, start as int, next))
                    },
                    Step::Unterminated => {
                        &&& stop
                        &&& final(self).tokens == old(self).tokens
                        &&& final(self).diagnostics@.len() == old(self).diagnostics@.len() + 1
                        &&& final(self).diagnostics@.drop_last() == old(self).diagnostics@
                        &&& diagnostic_is(
                            src,
                            final(self).diagnostics@.last(),
                            ("unexpected end of file"@, start as int, src.len() as int),
                        )
                    },
                    Step::Stuck => false,
                }
            }),
    {
        let ghost src = self.source@;
        let current = c;
        if current == '(' {
            self.push_token(TokenKind::LeftParen);
            return false;
        }
        if current == ')' {
            self.push_token(TokenKind::RightParen);
            return false;
        }
        if current == '{' {
            self.push_token(TokenKind::LeftBrace);
            return false;
        }
        if current == '}' {
            self.push_token(TokenKind::RightBrace);
            return false;
        }
        if current == ',' {
            self.push_token(TokenKind::Comma);
            return false;
        }
        if current == '.' {
            self.push_token(TokenKind::Dot);
            return false;
        }
        if current == '-' {
            self.push_token(TokenKind::Minus);
            return false;
        }
        if current == '+' {
            self.push_token(TokenKind::Plus);
            return false;
        }
        if current == ';' {
            self.push_token(TokenKind::Semicolon);
            return false;
        }
        if current == '*' {
            self.push_token(TokenKind::Star);
            return false;
        }
        if current == '!' {
            if self.match_next('=') {
                self.push_token(TokenKind::BangEqual);
            } else {
                self.push_token(TokenKind::Bang);
            }
            return false;
        }
        if current == '=' {
            if self.match_next('=') {
                self.push_token(TokenKind::EqualEqual);
            } else {
                self.push_token(TokenKind::Equal);
            }
            return false;
        }
        if current == '<' {
            if self.match_next('=') {
                self.push_token(TokenKind::LessEqual);
            } else {
                self.push_token(TokenKind::Less);
            }
            return false;
        }
        if current == '>' {
            if self.match_next('=') {
                self.push_token(TokenKind::GreaterEqual);
            } else {
                self.push_token(TokenKind::Greater);
            }
            return false;
        }
        if current == '/' {
            if self.match_next('/') {
                let ghost n = find_from(src, start + 2, '\n').unwrap();
                proof {
                    lemma_find_from_bounds(src, start + 2, '\n');
                }
                loop
                    invariant
                        self.wf(),
                        self.source@ == src,
                        src == old(self).source@,
                        self.cur_token_start == start,
                        self.tokens == old(self).tokens,
                        self.diagnostics == old(self).diagnostics,
                        start + 2 <= self.current <= n < src.len(),
                        src[n] == '\n',
                        find_from(src, self.current as int, '\n') == Some(n),
                    ensures
                        self.wf(),
                        self.source@ == src,
                        self.tokens == old(self).tokens,
                        self.diagnostics == old(self).diagnostics,
                        self.current == n,
                    decreases n - self.current,
                {
                    match self.peek() {
                        Some(c) => {
                            if c == '\n' {
                                break;
                            }
                            self.advance();
                        },
                        None => {
                            break;
                        },
                    }
                }
            } else {
                self.push_token(TokenKind::Slash);
            }
            return false;
        }
        if current == ' ' || current == '\t' || current == '\r' || current == '\n' {
            // Whitespace produces no token; the next iteration re-anchors
            // the span, so there is nothing to do here.
            return false;
        }
        if current == '"' {
            let content_start = self.current;
            let mut content_end = content_start;
            loop
                invariant_except_break
                    content_start <= self.current <= src.len(),
                    content_end == self.current,
                    find_from(src, self.current as int, '"') == find_from(src, content_start as int, '"'),
                invariant
                    self.wf(),
                    self.source@ == src,
                    src == old(self).source@,
                    self.cur_token_start == start,
                    self.tokens == old(self).tokens,
                    self.diagnostics == old(self).diagnostics,
                    start + 1 == content_start,
                    start < src.len(),
                    src[start as int] == '"',
                ensures
                    self.wf(),
                    self.source@ == src,
                    src == old(self).source@,
                    self.cur_token_start == start,
                    self.tokens == old(self).tokens,
                    self.diagnostics == old(self).diagnostics,
                    find_from(src, content_start as int, '"') == Some(content_end as int),
                    content_start <= content_end < src.len(),
                    self.current == content_end + 1,
                decreases src.len() - self.current,
            {
                match self.advance() {
                    Some(n) => {
                        if n == '"' {
                            break;
                        }
                        content_end = self.current;
                    },
                    None => {
                        let span = self.current_span();
                        let ghost before = self.diagnostics@;
                        self.diagnostics.push(Diagnostic::error(span, "unexpected end of file"));
                        assert(self.diagnostics@.drop_last() =~= before);
                        assert(find_from(src, content_start as int, '"') is None);
                        // no need to drop chars because this should be the end; actually, bail
                        return true;
                    },
                }
            }
            let text = string_from_chars(&self.source, content_start, content_end);
            self.push_token(TokenKind::String(text));
            return false;
        }
        if is_ascii_digit_exec(current) {
            let mut saw_dot = false;
            let ghost e = number_end(src, start + 1, false);
            loop
                invariant
                    self.wf(),
                    self.source@ == src,
                    src == old(self).source@,
                    self.cur_token_start == start,
                    self.tokens == old(self).tokens,
                    self.diagnostics == old(self).diagnostics,
                    start + 1 <= self.current <= src.len(),
                    number_end(src, self.current as int, saw_dot) == e,
                ensures
                    self.wf(),
                    self.source@ == src,
                    src == old(self).source@,
                    self.cur_token_start == start,
                    self.tokens == old(self).tokens,
                    self.diagnostics == old(self).diagnostics,
                    self.current == e,
                decreases src.len() - self.current,
            {
                match self.peek() {
                    Some(c) => {
                        if c == '.' {
                            if saw_dot {
                                break;
                            } else {
                                saw_dot = true;
                            }
                        } else if !is_ascii_digit_exec(c) {
                            break;
                        }
                        self.advance();
                    },
                    None => {
                        break;
                    },
                }
            }
            let text = string_from_chars(&self.source, start, self.current);
            self.push_token(TokenKind::Number(text));
            return false;
        }
        if is_alphabetic_char(current) {
            let ghost e = ident_end(src, start + 1);
            loop
                invariant
                    self.wf(),
                    self.source@ == src,
                    src == old(self).source@,
                    self.cur_token_start == start,
                    self.tokens == old(self).tokens,
                    self.diagnostics == old(self).diagnostics,
                    start + 1 <= self.current <= src.len(),
                    ident_end(src, self.current as int) == e,
                ensures
                    self.wf(),
                    self.source@ == src,
                    src == old(self).source@,
                    self.cur_token_start == start,
                    self.tokens == old(self).tokens,
                    self.diagnostics == old(self).diagnostics,
                    self.current == e,
                decreases src.len() - self.current,
            {
                match self.peek() {
                    Some(c) => {
                        if is_alphabetic_char(c) || c == '_' || is_ascii_digit_exec(c) {
                            self.advance();
                        } else {
                            break;
                        }
                    },
                    None => {
                        break;
                    },
                }
            }
            let kind = keyword_or_identifier_exec(&self.source, start, self.current);
            self.push_token(kind);
            return false;
        }
        let mut msg = String::new();
        msg.append("unexpected input char: '");
        push_char(&mut msg, current);
        msg.append("'");
        assert(msg@ =~= unexpected_char_message(current));
        let span = self.current_span();
        self.diagnostics.push(Diagnostic::error(span, msg.as_str()));
        false
    }
}

/// The keyword spelled by `src[from..to]`, or an identifier with that text.
fn keyword_or_identifier_exec(src: &Vec<char>, from: usize, to: usize) -> (r: TokenKind)
    requires
        from <= to <= src@.len(),
    ensures
        r@ == keyword_or_identifier(src@.subrange(from as int, to as int)),
{
    if chars_equal_at(src, from, to, &['a', 'n', 'd']) {
        return TokenKind::And;
    }
    if chars_equal_at(src, from, to, &['c', 'l', 'a', 's', 's']) {
        return TokenKind::Class;
    }
    if chars_equal_at(src, from, to, &['e', 'l', 's', 'e']) {
        return TokenKind::Else;
    }
    if chars_equal_at(src, from, to, &['f', 'a', 'l', 's', 'e']) {
        return TokenKind::False;
    }
    if chars_equal_at(src, from, to, &['f', 'o', 'r']) {
        return TokenKind::For;
    }
    if chars_equal_at(src, from, to, &['f', 'u', 'n']) {
        return TokenKind::Fun;
    }
    if chars_equal_at(src, from, to, &['i', 'f']) {
        return TokenKind::If;
    }
    if chars_equal_at(src, from, to, &['n', 'i', 'l']) {
        return TokenKind::Nil;
    }
    if chars_equal_at(src, from, to, &['o', 'r']) {
        return TokenKind::Or;
    }
    if chars_equal_at(src, from, to, &['p', 'r', 'i', 'n', 't']) {
        return TokenKind::Print;
    }
    if chars_equal_at(src, from, to, &['r', 'e', 't', 'u', 'r', 'n']) {
        return TokenKind::Return;
    }
    if chars_equal_at(src, from, to, &['s', 'u', 'p', 'e', 'r']) {
        return TokenKind::Super;
    }
    if chars_equal_at(src, from, to, &['t', 'h', 'i', 's']) {
        return TokenKind::This;
    }
    if chars_equal_at(src, from, to, &['t', 'r', 'u', 'e']) {
        return TokenKind::True;
    }
    if chars_equal_at(src, from, to, &['v', 'a', 'r']) {
        return TokenKind::Var;
    }
    if chars_equal_at(src, from, to, &['w', 'h', 'i', 'l', 'e']) {
        return TokenKind::While;
    }
    TokenKind::Identifier(string_from_chars(src, from, to))
}

proof fn lemma_extend_tokens(
    src: Seq<char>,
    prev: Seq<Token>,
    now: Seq<Token>,
    t0: int,
    gs: Seq<SpecToken>,
    x: SpecToken,
    orig: Seq<Token>,
)
    requires
        0 <= t0,
        prev.len() == t0 + gs.len(),
        forall|i: int| 0 <= i < gs.len() ==> token_is(src, #[trigger] prev[t0 + i], gs[i]),
        forall|i: int| 0 <= i < t0 ==> prev[i] == orig[i],
        now.len() == prev.len() + 1,
        now.drop_last() == prev,
        token_is(src, now.last(), x),
    ensures
        forall|i: int| 0 <= i < gs.len() + 1 ==> token_is(src, #[trigger] now[t0 + i], gs.push(x)[i]),
        forall|i: int| 0 <= i < t0 ==> now[i] == orig[i],
{
    assert forall|i: int| 0 <= i < gs.len() + 1 implies token_is(src, #[trigger] now[t0 + i], gs.push(x)[i]) by {
        if i < gs.len() {
            assert(now.drop_last()[t0 + i] == now[t0 + i]);
            assert(token_is(src, prev[t0 + i], gs[i]));
        }
    }
    assert forall|i: int| 0 <= i < t0 implies now[i] == orig[i] by {
        assert(now.drop_last()[i] == now[i]);
    }
}

proof fn lemma_extend_diagnostics(
    src: Seq<char>,
    prev: Seq<Diagnostic>,
    now: Seq<Diagnostic>,
    d0: int,
    gs: Seq<SpecDiagnostic>,
    x: SpecDiagnostic,
    orig: Seq<Diagnostic>,
)
    requires
        0 <= d0,
        prev.len() == d0 + gs.len(),
        forall|i: int| 0 <= i < gs.len() ==> diagnostic_is(src, #[trigger] prev[d0 + i], gs[i]),
        forall|i: int| 0 <= i < d0 ==> prev[i] == orig[i],
        now.len() == prev.len() + 1,
        now.drop_last() == prev,
        diagnostic_is(src, now.last(), x),
    ensures
        forall|i: int| 0 <= i < gs.len() + 1 ==> diagnostic_is(src, #[trigger] now[d0 + i], gs.push(x)[i]),
        forall|i: int| 0 <= i < d0 ==> now[i] == orig[i],
{
    assert forall|i: int| 0 <= i < gs.len() + 1 implies diagnostic_is(src, #[trigger] now[d0 + i], gs.push(x)[i]) by {
        if i < gs.len() {
            assert(now.drop_last()[d0 + i] == now[d0 + i]);
            assert(diagnostic_is(src, prev[d0 + i], gs[i]));
        }
    }
    assert forall|i: int| 0 <= i < d0 implies now[i] == orig[i] by {
        assert(now.drop_last()[i] == now[i]);
    }
}

/// Whether scanning `source` finishes. It does unless a line comment runs
/// into the end of the source without a newline: there the scanner waits for
/// one forever.
pub fn scan_finishes_on(source: &str) -> (r: bool)
    ensures
        r == scan_finishes(source@),
{
    let mut scanner = Scanner::new(source);
    loop
        invariant
            scanner.wf(),
            scanner.source@ == source@,
            scan_finishes(source@) == (scan_from(source@, scanner.current as int) is Some),
        decreases source@.len() - scanner.current,
    {
        let start = scanner.current;
        scanner.cur_token_start = start;
        scanner.token_start_byte = scanner.current_byte;
        let c = match scanner.advance() {
            Some(c) => c,
            None => return true,
        };
        let comment = c == '/' && match scanner.peek() {
            Some(d) => d == '/',
            None => false,
        };
        if comment {
            let n = scanner.source.len();
            assert(start + 1 < n);
            if !contains_from(&scanner.source, start + 2, '\n') {
                return false;
            }
        }
        proof {
            lemma_step_advances(source@, start as int);
        }
        if scanner.scan_token(start, c) {
            return true;
        }
    }
}

/// Scans a whole source text.
///
/// Requires that scanning finishes: a line comment must end with a newline.
pub fn scan(source: &str) -> (r: ScanResult)
    requires
        scan_finishes(source@),
    ensures
        scan_result_is(source@, r.0@, r.1@),
{
    let mut scanner = Scanner::new(source);
    scanner.scan();
    proof {
        let (ts, ds) = scan_from(source@, 0).unwrap();
        assert forall|i: int| 0 <= i < ts.len() implies token_is(source@, #[trigger] scanner.tokens@[i], ts[i]) by {
            assert(scanner.tokens@[0 + i] == scanner.tokens@[i]);
        }
        assert forall|i: int| 0 <= i < ds.len() implies diagnostic_is(source@, #[trigger] scanner.diagnostics@[i], ds[i]) by {
            assert(scanner.diagnostics@[0 + i] == scanner.diagnostics@[i]);
        }
    }
    (scanner.tokens, scanner.diagnostics)
}

} // verus!
