//! Scanning and parsing of Lox source text.
use crate::parser::ast::{
    decls_ids, decls_v, DeclV, expr_ids, expr_kind_ids, exprs_ids, expr_v, exprs_v, lemma_expr_v_respan,
    lemma_exprs_ids_push, lemma_expr_v_span, lemma_exprs_v, lemma_exprs_v_push, Binary, Call, Declaration, ExprV,
    Expression, ExpressionKind, Literal, Logical, LogicalOp, Unary, Assign, BinaryOp,
};
use crate::parser::diagnostic::{Diagnostic, Severity};
use crate::parser::lexing::{
    diagnostic_is, lemma_scan_bounds, scan, scan_finishes, scan_from, spec_span, token_is, SpecToken,
};
use crate::parser::names::idents_ok;
use crate::text::{byte_len, byte_offset, lemma_byte_offset_mono, lemma_byte_offset_strict};
use crate::parser::statements::errors_are;
use crate::parser::grammar::{
    current_span, expected_message, forward, kind_at, kind_debug, level_rank, op_at,
    operand_level, sp_arguments, sp_assignment, sp_binary, sp_binary_rest, sp_call, sp_calls,
    sp_expect, sp_expect_identifier, sp_expression, sp_finish_call, sp_and_rest, sp_logic_and, sp_logic_or, sp_or_rest,
    sp_operand, sp_primary, sp_program, sp_synchronize, sp_unary, str_debug, Level, Parsed, TokV,
};
use crate::parser::node::{
    id_space, id_window, lemma_node_ids, lemma_node_ids2, lemma_window_widen, Node, NodeIds, Span,
    Spanned,
};
use vstd::multiset::Multiset;
use crate::parser::token::{SpecTokenKind, Token, TokenKind, TokenKindOf};
use vstd::prelude::*;
use vstd::string::StringExecFns;

pub mod ast;
pub mod diagnostic;
pub mod escapes;
pub mod grammar;
pub mod lexing;
pub mod names;
pub mod node;
pub mod progress;
pub mod span;
pub mod statements;
pub mod token;

verus! {

/// How `str`'s `Debug` shows `s`: in double quotes, with escapes.
///
/// Trusted: formats `s` with `{:?}`, that is `<str as Debug>::fmt`. The
/// contract only names the result (`str_debug`); what the escapes are is
/// not stated.
#[verifier::external_body]
fn debug_str(s: &str) -> (r: String)
    ensures
        r@ == str_debug(s@),
{
    format!("{:?}", s)
}

/// A token kind that carries text.
pub open spec fn has_text(k: SpecTokenKind) -> bool {
    k is Identifier || k is String || k is Number
}

/// A number for each kind of token.
pub open spec fn kind_tag(k: SpecTokenKind) -> u8 {
    match k {
        TokenKindOf::LeftParen => 0,
        TokenKindOf::RightParen => 1,
        TokenKindOf::LeftBrace => 2,
        TokenKindOf::RightBrace => 3,
        TokenKindOf::Comma => 4,
        TokenKindOf::Dot => 5,
        TokenKindOf::Minus => 6,
        TokenKindOf::Plus => 7,
        TokenKindOf::Semicolon => 8,
        TokenKindOf::Slash => 9,
        TokenKindOf::Star => 10,
        TokenKindOf::Bang => 11,
        TokenKindOf::BangEqual => 12,
        TokenKindOf::Equal => 13,
        TokenKindOf::EqualEqual => 14,
        TokenKindOf::Greater => 15,
        TokenKindOf::GreaterEqual => 16,
        TokenKindOf::Less => 17,
        TokenKindOf::LessEqual => 18,
        TokenKindOf::Identifier(_) => 19,
        TokenKindOf::String(_) => 20,
        TokenKindOf::Number(_) => 21,
        TokenKindOf::And => 22,
        TokenKindOf::Class => 23,
        TokenKindOf::Else => 24,
        TokenKindOf::False => 25,
        TokenKindOf::Fun => 26,
        TokenKindOf::For => 27,
        TokenKindOf::If => 28,
        TokenKindOf::Nil => 29,
        TokenKindOf::Or => 30,
        TokenKindOf::Print => 31,
        TokenKindOf::Return => 32,
        TokenKindOf::Super => 33,
        TokenKindOf::This => 34,
        TokenKindOf::True => 35,
        TokenKindOf::Var => 36,
        TokenKindOf::While => 37,
    }
}

fn tag(k: &TokenKind) -> (r: u8)
    ensures
        r == kind_tag(k@),
{
    match k {
        TokenKindOf::LeftParen => 0,
        TokenKindOf::RightParen => 1,
        TokenKindOf::LeftBrace => 2,
        TokenKindOf::RightBrace => 3,
        TokenKindOf::Comma => 4,
        TokenKindOf::Dot => 5,
        TokenKindOf::Minus => 6,
        TokenKindOf::Plus => 7,
        TokenKindOf::Semicolon => 8,
        TokenKindOf::Slash => 9,
        TokenKindOf::Star => 10,
        TokenKindOf::Bang => 11,
        TokenKindOf::BangEqual => 12,
        TokenKindOf::Equal => 13,
        TokenKindOf::EqualEqual => 14,
        TokenKindOf::Greater => 15,
        TokenKindOf::GreaterEqual => 16,
        TokenKindOf::Less => 17,
        TokenKindOf::LessEqual => 18,
        TokenKindOf::Identifier(_) => 19,
        TokenKindOf::String(_) => 20,
        TokenKindOf::Number(_) => 21,
        TokenKindOf::And => 22,
        TokenKindOf::Class => 23,
        TokenKindOf::Else => 24,
        TokenKindOf::False => 25,
        TokenKindOf::Fun => 26,
        TokenKindOf::For => 27,
        TokenKindOf::If => 28,
        TokenKindOf::Nil => 29,
        TokenKindOf::Or => 30,
        TokenKindOf::Print => 31,
        TokenKindOf::Return => 32,
        TokenKindOf::Super => 33,
        TokenKindOf::This => 34,
        TokenKindOf::True => 35,
        TokenKindOf::Var => 36,
        TokenKindOf::While => 37,
    }
}

/// Is `found` the kind `expected`, which carries no text?
fn same_kind(found: &TokenKind, expected: &TokenKind) -> (r: bool)
    requires
        !has_text(expected@),
    ensures
        r == (found@ == expected@),
{
    tag(found) == tag(expected)
}

/// A copy of `k`.
fn copy_kind(k: &TokenKind) -> (r: TokenKind)
    ensures
        r@ == k@,
{
    match k {
        TokenKindOf::Identifier(s) => TokenKindOf::Identifier(s.clone()),
        TokenKindOf::String(s) => TokenKindOf::String(s.clone()),
        TokenKindOf::Number(s) => TokenKindOf::Number(s.clone()),
        TokenKindOf::LeftParen => TokenKindOf::LeftParen,
        TokenKindOf::RightParen => TokenKindOf::RightParen,
        TokenKindOf::LeftBrace => TokenKindOf::LeftBrace,
        TokenKindOf::RightBrace => TokenKindOf::RightBrace,
        TokenKindOf::Comma => TokenKindOf::Comma,
        TokenKindOf::Dot => TokenKindOf::Dot,
        TokenKindOf::Minus => TokenKindOf::Minus,
        TokenKindOf::Plus => TokenKindOf::Plus,
        TokenKindOf::Semicolon => TokenKindOf::Semicolon,
        TokenKindOf::Slash => TokenKindOf::Slash,
        TokenKindOf::Star => TokenKindOf::Star,
        TokenKindOf::Bang => TokenKindOf::Bang,
        TokenKindOf::BangEqual => TokenKindOf::BangEqual,
        TokenKindOf::Equal => TokenKindOf::Equal,
        TokenKindOf::EqualEqual => TokenKindOf::EqualEqual,
        TokenKindOf::Greater => TokenKindOf::Greater,
        TokenKindOf::GreaterEqual => TokenKindOf::GreaterEqual,
        TokenKindOf::Less => TokenKindOf::Less,
        TokenKindOf::LessEqual => TokenKindOf::LessEqual,
        TokenKindOf::And => TokenKindOf::And,
        TokenKindOf::Class => TokenKindOf::Class,
        TokenKindOf::Else => TokenKindOf::Else,
        TokenKindOf::False => TokenKindOf::False,
        TokenKindOf::Fun => TokenKindOf::Fun,
        TokenKindOf::For => TokenKindOf::For,
        TokenKindOf::If => TokenKindOf::If,
        TokenKindOf::Nil => TokenKindOf::Nil,
        TokenKindOf::Or => TokenKindOf::Or,
        TokenKindOf::Print => TokenKindOf::Print,
        TokenKindOf::Return => TokenKindOf::Return,
        TokenKindOf::Super => TokenKindOf::Super,
        TokenKindOf::This => TokenKindOf::This,
        TokenKindOf::True => TokenKindOf::True,
        TokenKindOf::Var => TokenKindOf::Var,
        TokenKindOf::While => TokenKindOf::While,
    }
}

/// How `k` is shown in messages, as its `Debug` form.
fn kind_debug_text(k: &TokenKind) -> (r: String)
    ensures
        r@ == kind_debug(k@),
{
    match k {
        TokenKindOf::Identifier(s) => {
            let mut r = "Identifier(".to_owned();
            r.append(debug_str(s.as_str()).as_str());
            r.append(")");
            r
        },
        TokenKindOf::String(s) => {
            let mut r = "String(".to_owned();
            r.append(debug_str(s.as_str()).as_str());
            r.append(")");
            r
        },
        TokenKindOf::Number(s) => {
            let mut r = "Number(".to_owned();
            r.append(s.as_str());
            r.append(")");
            r
        },
        TokenKindOf::LeftParen => "LeftParen".to_owned(),
        TokenKindOf::RightParen => "RightParen".to_owned(),
        TokenKindOf::LeftBrace => "LeftBrace".to_owned(),
        TokenKindOf::RightBrace => "RightBrace".to_owned(),
        TokenKindOf::Comma => "Comma".to_owned(),
        TokenKindOf::Dot => "Dot".to_owned(),
        TokenKindOf::Minus => "Minus".to_owned(),
        TokenKindOf::Plus => "Plus".to_owned(),
        TokenKindOf::Semicolon => "Semicolon".to_owned(),
        TokenKindOf::Slash => "Slash".to_owned(),
        TokenKindOf::Star => "Star".to_owned(),
        TokenKindOf::Bang => "Bang".to_owned(),
        TokenKindOf::BangEqual => "BangEqual".to_owned(),
        TokenKindOf::Equal => "Equal".to_owned(),
        TokenKindOf::EqualEqual => "EqualEqual".to_owned(),
        TokenKindOf::Greater => "Greater".to_owned(),
        TokenKindOf::GreaterEqual => "GreaterEqual".to_owned(),
        TokenKindOf::Less => "Less".to_owned(),
        TokenKindOf::LessEqual => "LessEqual".to_owned(),
        TokenKindOf::And => "And".to_owned(),
        TokenKindOf::Class => "Class".to_owned(),
        TokenKindOf::Else => "Else".to_owned(),
        TokenKindOf::False => "False".to_owned(),
        TokenKindOf::Fun => "Fun".to_owned(),
        TokenKindOf::For => "For".to_owned(),
        TokenKindOf::If => "If".to_owned(),
        TokenKindOf::Nil => "Nil".to_owned(),
        TokenKindOf::Or => "Or".to_owned(),
        TokenKindOf::Print => "Print".to_owned(),
        TokenKindOf::Return => "Return".to_owned(),
        TokenKindOf::Super => "Super".to_owned(),
        TokenKindOf::This => "This".to_owned(),
        TokenKindOf::True => "True".to_owned(),
        TokenKindOf::Var => "Var".to_owned(),
        TokenKindOf::While => "While".to_owned(),
    }
}

/// The operator that `k` stands for at `level`, if any.
fn binary_op_at(level: Level, k: &TokenKind) -> (r: Option<BinaryOp>)
    ensures
        r == op_at(level, k@),
{
    match level {
        Level::Equality => match k {
            TokenKindOf::BangEqual => Some(BinaryOp::NotEqual),
            TokenKindOf::EqualEqual => Some(BinaryOp::Equal),
            _ => None,
        },
        Level::Comparison => match k {
            TokenKindOf::Greater => Some(BinaryOp::Greater),
            TokenKindOf::GreaterEqual => Some(BinaryOp::GreaterEqual),
            TokenKindOf::Less => Some(BinaryOp::Less),
            TokenKindOf::LessEqual => Some(BinaryOp::LessEqual),
            _ => None,
        },
        Level::Term => match k {
            TokenKindOf::Plus => Some(BinaryOp::Add),
            TokenKindOf::Minus => Some(BinaryOp::Subtract),
            _ => None,
        },
        Level::Factor => match k {
            TokenKindOf::Slash => Some(BinaryOp::Divide),
            TokenKindOf::Star => Some(BinaryOp::Multiply),
            _ => None,
        },
    }
}

fn lower_level(level: Level) -> (r: Level)
    ensures
        r == operand_level(level),
{
    match level {
        Level::Equality => Level::Comparison,
        Level::Comparison => Level::Term,
        _ => Level::Factor,
    }
}

/// The tokens as the grammar sees them.
pub open spec fn tok_views(ts: Seq<Token>) -> Seq<TokV> {
    ts.map_values(|t: Token| (t.node@, t.span))
}

/// `d` is an error at `sp` that says `m`.
pub open spec fn error_is(d: Diagnostic, sp: Span, m: Seq<char>) -> bool {
    &&& d.severity == Severity::Error
    &&& d.span == sp
    &&& d.message@ == m
}

/// `r`, with the parser left at `pos`, is the outcome `s`.
pub open spec fn outcome_is<T, V>(r: Result<T, Diagnostic>, view: spec_fn(T) -> V, pos: int, s: Parsed<V>) -> bool {
    match s {
        Parsed::Done(v, p) => pos == p && (match r {
            Ok(x) => view(x) == v,
            Err(_) => false,
        }),
        Parsed::Failed(sp, m, p) => pos == p && (match r {
            Ok(_) => false,
            Err(d) => error_is(d, sp, m),
        }),
        Parsed::Halted => false,
    }
}

pub open spec fn expr_outcome(r: Result<Expression, Diagnostic>, pos: int, s: Parsed<ExprV>) -> bool {
    outcome_is(r, |e: Expression| expr_v(e), pos, s)
}

pub type ParseExpressionResult = Result<Expression, Diagnostic>;

/// `ids` are among the node ids handed out while the count of issued ids
/// went from `lo` to `hi`.
pub open spec fn fresh_ids(ids: Multiset<u64>, lo: nat, hi: nat) -> bool {
    ids.subset_of(id_window(lo, hi))
}

/// An expression that `r` holds has node ids handed out while the count of
/// issued ids went from `lo` to `hi`.
pub open spec fn fresh_expr(r: Result<Expression, Diagnostic>, lo: nat, hi: nat) -> bool {
    r matches Ok(e) ==> fresh_ids(expr_ids(e), lo, hi)
}

/// Builds a syntax tree from tokens.
pub struct Parser {
    pub tokens: Vec<Token>,
    pub decls: Vec<Declaration>,
    pub diagnostics: Vec<Diagnostic>,
    /// Index of the next token to consider.
    pub current: usize,
    pub ids: NodeIds,
}

impl Parser {
    pub open spec fn wf(&self) -> bool {
        self.current <= self.tokens@.len()
    }

    pub open spec fn toks(&self) -> Seq<TokV> {
        tok_views(self.tokens@)
    }

    pub open spec fn pos(&self) -> int {
        self.current as int
    }

    /// `self` has the tokens, declarations and diagnostics of `other`, and
    /// has handed out at least the node ids that `other` had.
    pub open spec fn keeps(&self, other: Parser) -> bool {
        &&& self.ids.issued() >= other.ids.issued()
        &&& self.tokens@ == other.tokens@
        &&& self.decls@ == other.decls@
        &&& self.diagnostics@ == other.diagnostics@
    }

    /// A parser at the first of `tokens`, after the scanner's `diagnostics`.
    pub fn new(tokens: Vec<Token>, diagnostics: Vec<Diagnostic>) -> (r: Self)
        ensures
            r.wf(),
            r.tokens@ == tokens@,
            r.diagnostics@ == diagnostics@,
            r.decls@.len() == 0,
            r.current == 0,
    {
        Self { tokens, diagnostics, current: 0, decls: Vec::new(), ids: NodeIds::new() }
    }

    /// Takes a copy of the next token and moves past it.
    fn advance(&mut self) -> (r: Result<Token, Diagnostic>)
        requires
            old(self).wf(),
        ensures
            final(self).wf(),
            final(self).keeps(*old(self)),
            old(self).pos() < old(self).toks().len() ==> {
                &&& final(self).pos() == old(self).pos() + 1
                &&& r matches Ok(t) && (t.node@, t.span) == old(self).toks()[old(self).pos()]
            },
            old(self).pos() >= old(self).toks().len() ==> {
                &&& final(self).pos() == old(self).pos()
                &&& r matches Err(d) && error_is(
                    d,
                    current_span(old(self).toks(), old(self).pos()),
                    "unexpected end of input"@,
                )
            },
    {
        if self.current < self.tokens.len() {
            let t = &self.tokens[self.current];
            let tok = Spanned { span: t.span, node: copy_kind(&t.node) };
            self.current = self.current + 1;
            Ok(tok)
        } else {
            Err(Diagnostic::error(self.current_span(), "unexpected end of input"))
        }
    }

    /// The span of the next token; past the end, an empty span just after
    /// the last token; with no tokens, `0..0`.
    fn current_span(&self) -> (r: Span)
        requires
            self.wf(),
        ensures
            r == current_span(self.toks(), self.pos()),
    {
        if self.current < self.tokens.len() {
            self.tokens[self.current].span
        } else if self.tokens.len() > 0 {
            let last = self.tokens[self.tokens.len() - 1].span;
            Span { start: last.end, end: last.end }
        } else {
            Span { start: 0, end: 0 }
        }
    }

    fn peek_type(&self) -> (r: Option<&TokenKind>)
        requires
            self.wf(),
        ensures
            (match r {
                Some(k) => Some(k@),
                None => None,
            }) == kind_at(self.toks(), self.pos()),
            r is Some <==> self.current < self.tokens@.len(),
    {
        if self.current < self.tokens.len() {
            Some(&self.tokens[self.current].node)
        } else {
            None
        }
    }

    fn expect_token(&mut self, expected: TokenKind) -> (r: Result<Span, Diagnostic>)
        requires
            old(self).wf(),
            !has_text(expected@),
        ensures
            final(self).wf(),
            final(self).keeps(*old(self)),
            outcome_is(r, |s: Span| s, final(self).pos(), sp_expect(old(self).toks(), old(self).pos(), expected@)),
    {
        let tok = match self.advance() {
            Ok(t) => t,
            Err(e) => return Err(e),
        };
        if same_kind(&tok.node, &expected) {
            Ok(tok.span)
        } else {
            let mut msg = "expected token ".to_owned();
            msg.append(kind_debug_text(&expected).as_str());
            msg.append(", found ");
            msg.append(kind_debug_text(&tok.node).as_str());
            proof {
                assert(msg@ == expected_message(expected@, tok.node@));
            }
            Err(Diagnostic::error(tok.span, msg.as_str()))
        }
    }

    fn expect_identifier(&mut self) -> (r: Result<(Span, String), Diagnostic>)
        requires
            old(self).wf(),
        ensures
            final(self).wf(),
            final(self).keeps(*old(self)),
            outcome_is(r, |x: (Span, String)| x.0, final(self).pos(), sp_expect_identifier(old(self).toks(), old(self).pos())),
            r matches Ok(x) ==> old(self).toks()[old(self).pos()].0 == TokenKindOf::Identifier(x.1@),
    {
        let tok = match self.advance() {
            Ok(t) => t,
            Err(e) => return Err(e),
        };
        match &tok.node {
            TokenKindOf::Identifier(s) => Ok((tok.span, s.clone())),
            _ => Err(Diagnostic::error(tok.span, "expected an identifier")),
        }
    }

    /// After an error, skips tokens up to a likely start of a statement.
    fn synchronize(&mut self)
        requires
            old(self).wf(),
        ensures
            final(self).wf(),
            final(self).keeps(*old(self)),
            final(self).pos() == sp_synchronize(old(self).toks(), old(self).pos()),
    {
        let ghost ts = self.toks();
        let ghost target = sp_synchronize(ts, self.pos());
        loop
            invariant_except_break
                sp_synchronize(ts, self.pos()) == target,
            invariant
                self.wf(),
                self.keeps(*old(self)),
                ts == self.toks(),
            ensures
                self.pos() == target,
            decreases self.tokens@.len() - self.current,
        {
            if self.current >= self.tokens.len() {
                break;
            }
            match &self.tokens[self.current].node {
                TokenKindOf::Semicolon => {
                    self.current = self.current + 1;
                    break;
                },
                TokenKindOf::Class | TokenKindOf::Fun | TokenKindOf::Var | TokenKindOf::For
                | TokenKindOf::If | TokenKindOf::While | TokenKindOf::Print | TokenKindOf::Return => break,
                _ => {
                    self.current = self.current + 1;
                },
            }
        }
    }

    pub fn parse_expression(&mut self) -> (r: ParseExpressionResult)
        requires
            old(self).wf(),
            sp_expression(old(self).toks(), old(self).pos()) !is Halted,
        ensures
            final(self).wf(),
            final(self).keeps(*old(self)),
            expr_outcome(r, final(self).pos(), sp_expression(old(self).toks(), old(self).pos())),
            fresh_expr(r, old(self).ids.issued(), final(self).ids.issued()),
        decreases old(self).tokens@.len() - old(self).current, 25int,
    {
        proof {
            reveal(sp_expression);
            reveal(sp_assignment);
        }
        self.parse_assignment()
    }

    #[verifier::rlimit(80)]
    #[verifier::spinoff_prover]
    pub fn parse_assignment(&mut self) -> (r: ParseExpressionResult)
        requires
            old(self).wf(),
            sp_assignment(old(self).toks(), old(self).pos()) !is Halted,
        ensures
            final(self).wf(),
            final(self).keeps(*old(self)),
            expr_outcome(r, final(self).pos(), sp_assignment(old(self).toks(), old(self).pos())),
            fresh_expr(r, old(self).ids.issued(), final(self).ids.issued()),
        decreases old(self).tokens@.len() - old(self).current, 24int,
    {
        proof {
            reveal(sp_assignment);
            reveal(sp_logic_or);
            crate::parser::progress::lemma_logic_or(self.toks(), self.pos());
        }
        let ghost p0 = self.pos();
        let ghost i0 = self.ids.issued();
        let expr = match self.parse_logic_or() {
            Ok(e) => e,
            Err(e) => return Err(e),
        };
        assert(forward(self.toks(), p0, self.pos()));
        if let Some(TokenKindOf::Equal) = self.peek_type() {
            let _ = self.advance();
            proof {
                crate::parser::progress::lemma_assignment(self.toks(), self.pos());
            }
            let ghost i1 = self.ids.issued();
            let value = match self.parse_assignment() {
                Ok(v) => v,
                Err(e) => return Err(e),
            };
            proof {
                lemma_node_ids(expr_ids(value), i0, i1, self.ids.issued(), self.ids.issued());
            }
            match expr.node {
                ExpressionKind::Variable(ident) => Ok(
                    Node::encapsulating(
                        &mut self.ids,
                        expr.span,
                        value.span,
                        ExpressionKind::Assign(Assign { target: ident, value: Box::new(value) }),
                    ),
                ),
                _ => Err(Diagnostic::error(expr.span, "Invalid assignment target")),
            }
        } else {
            Ok(expr)
        }
    }

    /// Operands joined by `or`, grouped to the left.
    pub fn parse_logic_or(&mut self) -> (r: ParseExpressionResult)
        requires
            old(self).wf(),
            sp_logic_or(old(self).toks(), old(self).pos()) !is Halted,
        ensures
            final(self).wf(),
            final(self).keeps(*old(self)),
            expr_outcome(r, final(self).pos(), sp_logic_or(old(self).toks(), old(self).pos())),
            fresh_expr(r, old(self).ids.issued(), final(self).ids.issued()),
        decreases old(self).tokens@.len() - old(self).current, 23int,
    {
        proof {
            reveal(sp_logic_or);
            reveal(sp_logic_and);
            reveal(sp_or_rest);
        }
        let ghost ts = self.toks();
        let ghost target = sp_logic_or(ts, self.pos());
        let ghost i0 = self.ids.issued();
        let mut expr = match self.parse_logic_and() {
            Ok(e) => e,
            Err(e) => return Err(e),
        };
        loop
            invariant
                self.wf(),
                self.keeps(*old(self)),
                ts == self.toks(),
                ts == old(self).toks(),
                old(self).pos() <= self.pos(),
                target == sp_logic_or(ts, old(self).pos()),
                i0 == old(self).ids.issued(),
                fresh_ids(expr_ids(expr), i0, self.ids.issued()),
                target !is Halted,
                sp_or_rest(ts, expr_v(expr), self.pos()) == target,
            ensures
                sp_or_rest(ts, expr_v(expr), self.pos()) == target,
                kind_at(ts, self.pos()) != Some(SpecTokenKind::Or),
            decreases self.tokens@.len() - self.current,
        {
            proof {
                reveal(sp_or_rest);
                reveal(sp_logic_and);
            }
            let ghost t = self.ids.issued();
            if let Some(TokenKindOf::Or) = self.peek_type() {
                let _ = self.advance();
                let ghost i1 = self.ids.issued();
                let right = match self.parse_logic_and() {
                    Ok(e) => e,
                    Err(e) => return Err(e),
                };
                proof {
                    lemma_node_ids2(expr_ids(expr), i0, t, expr_ids(right), i1, self.ids.issued(), self.ids.issued());
                }
                expr = Node::encapsulating(
                    &mut self.ids,
                    expr.span,
                    right.span,
                    ExpressionKind::Logical(
                        Logical { left: Box::new(expr), operator: LogicalOp::Or, right: Box::new(right) },
                    ),
                );
            } else {
                break;
            }
        }
        Ok(expr)
    }

    /// Operands joined by `and`, grouped to the left.
    pub fn parse_logic_and(&mut self) -> (r: ParseExpressionResult)
        requires
            old(self).wf(),
            sp_logic_and(old(self).toks(), old(self).pos()) !is Halted,
        ensures
            final(self).wf(),
            final(self).keeps(*old(self)),
            expr_outcome(r, final(self).pos(), sp_logic_and(old(self).toks(), old(self).pos())),
            fresh_expr(r, old(self).ids.issued(), final(self).ids.issued()),
        decreases old(self).tokens@.len() - old(self).current, 22int,
    {
        proof {
            reveal(sp_logic_and);
            reveal(sp_binary);
            reveal(sp_and_rest);
        }
        let ghost ts = self.toks();
        let ghost target = sp_logic_and(ts, self.pos());
        let ghost i0 = self.ids.issued();
        let mut expr = match self.parse_equality() {
            Ok(e) => e,
            Err(e) => return Err(e),
        };
        loop
            invariant
                self.wf(),
                self.keeps(*old(self)),
                ts == self.toks(),
                ts == old(self).toks(),
                old(self).pos() <= self.pos(),
                target == sp_logic_and(ts, old(self).pos()),
                i0 == old(self).ids.issued(),
                fresh_ids(expr_ids(expr), i0, self.ids.issued()),
                target !is Halted,
                sp_and_rest(ts, expr_v(expr), self.pos()) == target,
            ensures
                sp_and_rest(ts, expr_v(expr), self.pos()) == target,
                kind_at(ts, self.pos()) != Some(SpecTokenKind::And),
            decreases self.tokens@.len() - self.current,
        {
            proof {
                reveal(sp_and_rest);
                reveal(sp_binary);
            }
            let ghost t = self.ids.issued();
            if let Some(TokenKindOf::And) = self.peek_type() {
                let _ = self.advance();
                let ghost i1 = self.ids.issued();
                let right = match self.parse_equality() {
                    Ok(e) => e,
                    Err(e) => return Err(e),
                };
                proof {
                    lemma_node_ids2(expr_ids(expr), i0, t, expr_ids(right), i1, self.ids.issued(), self.ids.issued());
                }
                expr = Node::encapsulating(
                    &mut self.ids,
                    expr.span,
                    right.span,
                    ExpressionKind::Logical(
                        Logical { left: Box::new(expr), operator: LogicalOp::And, right: Box::new(right) },
                    ),
                );
            } else {
                break;
            }
        }
        Ok(expr)
    }

    pub fn parse_equality(&mut self) -> (r: ParseExpressionResult)
        requires
            old(self).wf(),
            sp_binary(old(self).toks(), Level::Equality, old(self).pos()) !is Halted,
        ensures
            final(self).wf(),
            final(self).keeps(*old(self)),
            expr_outcome(r, final(self).pos(), sp_binary(old(self).toks(), Level::Equality, old(self).pos())),
            fresh_expr(r, old(self).ids.issued(), final(self).ids.issued()),
        decreases old(self).tokens@.len() - old(self).current, 21int,
    {
        self.parse_binary(Level::Equality)
    }

    pub fn parse_comparison(&mut self) -> (r: ParseExpressionResult)
        requires
            old(self).wf(),
            sp_binary(old(self).toks(), Level::Comparison, old(self).pos()) !is Halted,
        ensures
            final(self).wf(),
            final(self).keeps(*old(self)),
            expr_outcome(r, final(self).pos(), sp_binary(old(self).toks(), Level::Comparison, old(self).pos())),
            fresh_expr(r, old(self).ids.issued(), final(self).ids.issued()),
    {
        self.parse_binary(Level::Comparison)
    }

    pub fn parse_term(&mut self) -> (r: ParseExpressionResult)
        requires
            old(self).wf(),
            sp_binary(old(self).toks(), Level::Term, old(self).pos()) !is Halted,
        ensures
            final(self).wf(),
            final(self).keeps(*old(self)),
            expr_outcome(r, final(self).pos(), sp_binary(old(self).toks(), Level::Term, old(self).pos())),
            fresh_expr(r, old(self).ids.issued(), final(self).ids.issued()),
    {
        self.parse_binary(Level::Term)
    }

    pub fn parse_factor(&mut self) -> (r: ParseExpressionResult)
        requires
            old(self).wf(),
            sp_binary(old(self).toks(), Level::Factor, old(self).pos()) !is Halted,
        ensures
            final(self).wf(),
            final(self).keeps(*old(self)),
            expr_outcome(r, final(self).pos(), sp_binary(old(self).toks(), Level::Factor, old(self).pos())),
            fresh_expr(r, old(self).ids.issued(), final(self).ids.issued()),
    {
        self.parse_binary(Level::Factor)
    }

    /// An operand of an operator at `level`.
    fn parse_operand(&mut self, level: Level) -> (r: ParseExpressionResult)
        requires
            old(self).wf(),
            sp_operand(old(self).toks(), level, old(self).pos()) !is Halted,
        ensures
            final(self).wf(),
            final(self).keeps(*old(self)),
            expr_outcome(r, final(self).pos(), sp_operand(old(self).toks(), level, old(self).pos())),
            fresh_expr(r, old(self).ids.issued(), final(self).ids.issued()),
        decreases old(self).tokens@.len() - old(self).current, 10 + 2 * level_rank(level),
    {
        proof {
            reveal(sp_operand);
            reveal(sp_unary);
            reveal(sp_binary);
        }
        match level {
            Level::Factor => self.parse_unary(),
            _ => self.parse_binary(lower_level(level)),
        }
    }

    /// Operands joined by the operators of `level`, grouped to the left.
    fn parse_binary(&mut self, level: Level) -> (r: ParseExpressionResult)
        requires
            old(self).wf(),
            sp_binary(old(self).toks(), level, old(self).pos()) !is Halted,
        ensures
            final(self).wf(),
            final(self).keeps(*old(self)),
            expr_outcome(r, final(self).pos(), sp_binary(old(self).toks(), level, old(self).pos())),
            fresh_expr(r, old(self).ids.issued(), final(self).ids.issued()),
        decreases old(self).tokens@.len() - old(self).current, 11 + 2 * level_rank(level),
    {
        proof {
            reveal(sp_binary);
            reveal(sp_operand);
            reveal(sp_binary_rest);
        }
        let ghost ts = self.toks();
        let ghost target = sp_binary(ts, level, self.pos());
        let ghost i0 = self.ids.issued();
        let mut expr = match self.parse_operand(level) {
            Ok(e) => e,
            Err(e) => return Err(e),
        };
        loop
            invariant
                self.wf(),
                self.keeps(*old(self)),
                ts == self.toks(),
                ts == old(self).toks(),
                old(self).pos() <= self.pos(),
                target == sp_binary(ts, level, old(self).pos()),
                i0 == old(self).ids.issued(),
                fresh_ids(expr_ids(expr), i0, self.ids.issued()),
                target !is Halted,
                sp_binary_rest(ts, level, expr_v(expr), self.pos()) == target,
            ensures
                sp_binary_rest(ts, level, expr_v(expr), self.pos()) == target,
                kind_at(ts, self.pos()) matches Some(k) ==> op_at(level, k) is None,
            decreases self.tokens@.len() - self.current,
        {
            proof {
                reveal(sp_binary_rest);
                reveal(sp_operand);
            }
            let ghost t = self.ids.issued();
            let op = match self.peek_type() {
                Some(k) => binary_op_at(level, k),
                None => None,
            };
            match op {
                Some(operator) => {
                    let _ = self.advance();
                    let ghost i1 = self.ids.issued();
                    let right = match self.parse_operand(level) {
                        Ok(e) => e,
                        Err(e) => return Err(e),
                    };
                    proof {
                        lemma_node_ids2(expr_ids(expr), i0, t, expr_ids(right), i1, self.ids.issued(), self.ids.issued());
                    }
                    expr = Node::encapsulating(
                        &mut self.ids,
                        expr.span,
                        right.span,
                        ExpressionKind::Binary(Binary { left: Box::new(expr), operator, right: Box::new(right) }),
                    );
                },
                None => break,
            }
        }
        Ok(expr)
    }

    pub fn parse_unary(&mut self) -> (r: ParseExpressionResult)
        requires
            old(self).wf(),
            sp_unary(old(self).toks(), old(self).pos()) !is Halted,
        ensures
            final(self).wf(),
            final(self).keeps(*old(self)),
            expr_outcome(r, final(self).pos(), sp_unary(old(self).toks(), old(self).pos())),
            fresh_expr(r, old(self).ids.issued(), final(self).ids.issued()),
        decreases old(self).tokens@.len() - old(self).current, 10int,
    {
        proof {
            reveal(sp_unary);
            reveal(sp_call);
        }
        let negate = match self.peek_type() {
            Some(TokenKindOf::Bang) => false,
            Some(TokenKindOf::Minus) => true,
            _ => return self.parse_call(),
        };
        let start = match self.advance() {
            Ok(t) => t.span.start,
            Err(e) => return Err(e),
        };
        let ghost i1 = self.ids.issued();
        let inner = match self.parse_unary() {
            Ok(e) => e,
            Err(e) => return Err(e),
        };
        proof {
            lemma_node_ids(expr_ids(inner), old(self).ids.issued(), i1, self.ids.issued(), self.ids.issued());
        }
        let end = inner.span.end;
        let kind = if negate {
            Unary::Negate(Box::new(inner))
        } else {
            Unary::Not(Box::new(inner))
        };
        Ok(Node::new(&mut self.ids, Span { start, end }, ExpressionKind::Unary(kind)))
    }

    pub fn parse_call(&mut self) -> (r: ParseExpressionResult)
        requires
            old(self).wf(),
            sp_call(old(self).toks(), old(self).pos()) !is Halted,
        ensures
            final(self).wf(),
            final(self).keeps(*old(self)),
            expr_outcome(r, final(self).pos(), sp_call(old(self).toks(), old(self).pos())),
            fresh_expr(r, old(self).ids.issued(), final(self).ids.issued()),
        decreases old(self).tokens@.len() - old(self).current, 4int,
    {
        proof {
            reveal(sp_call);
            reveal(sp_primary);
            reveal(sp_calls);
        }
        let ghost ts = self.toks();
        let ghost target = sp_call(ts, self.pos());
        let mut expr = match self.parse_primary() {
            Ok(e) => e,
            Err(e) => return Err(e),
        };
        loop
            invariant
                self.wf(),
                self.keeps(*old(self)),
                ts == self.toks(),
                ts == old(self).toks(),
                old(self).pos() <= self.pos(),
                target == sp_call(ts, old(self).pos()),
                fresh_ids(expr_ids(expr), old(self).ids.issued(), self.ids.issued()),
                target !is Halted,
                sp_calls(ts, expr_v(expr), self.pos()) == target,
            ensures
                sp_calls(ts, expr_v(expr), self.pos()) == target,
                kind_at(ts, self.pos()) != Some(TokenKindOf::<Seq<char>>::LeftParen),
            decreases self.tokens@.len() - self.current,
        {
            proof {
                reveal(sp_calls);
                reveal(sp_finish_call);
            }
            if let Some(TokenKindOf::LeftParen) = self.peek_type() {
                expr = match self.finish_call(expr, Ghost(old(self).ids.issued())) {
                    Ok(e) => e,
                    Err(e) => return Err(e),
                };
            } else {
                break;
            }
        }
        Ok(expr)
    }

    /// The arguments of a call, up to its closing parenthesis.
    fn parse_arguments(&mut self) -> (r: Result<Vec<Expression>, Diagnostic>)
        requires
            old(self).wf(),
            sp_arguments(old(self).toks(), old(self).pos(), Seq::empty()) !is Halted,
        ensures
            final(self).wf(),
            final(self).keeps(*old(self)),
            outcome_is(
                r,
                |v: Vec<Expression>| exprs_v(v@),
                final(self).pos(),
                sp_arguments(old(self).toks(), old(self).pos(), Seq::empty()),
            ),
            r matches Ok(v) ==> fresh_ids(exprs_ids(v@), old(self).ids.issued(), final(self).ids.issued()),
        decreases old(self).tokens@.len() - old(self).current, 26int,
    {
        let ghost ts = self.toks();
        let ghost target = sp_arguments(ts, self.pos(), Seq::empty());
        let mut arguments: Vec<Expression> = Vec::new();
        assert(exprs_v(arguments@) =~= Seq::<ExprV>::empty());
        assert(exprs_ids(arguments@) =~= Multiset::<u64>::empty());
        loop
            invariant_except_break
                sp_arguments(ts, self.pos(), exprs_v(arguments@)) == target,
            invariant
                self.wf(),
                self.keeps(*old(self)),
                ts == self.toks(),
                ts == old(self).toks(),
                old(self).pos() <= self.pos(),
                target == sp_arguments(ts, old(self).pos(), Seq::empty()),
                fresh_ids(exprs_ids(arguments@), old(self).ids.issued(), self.ids.issued()),
                target !is Halted,
            ensures
                target == Parsed::Done(exprs_v(arguments@), self.pos()),
            decreases self.tokens@.len() - self.current,
        {
            proof {
                reveal(sp_arguments);
                reveal(sp_expression);
            }
            let ghost q = self.pos();
            if let Some(TokenKindOf::RightParen) = self.peek_type() {
                break;
            }
            assert(kind_at(ts, q) != Some(SpecTokenKind::RightParen));
            assert(sp_expression(ts, q) !is Halted);
            let ghost i1 = self.ids.issued();
            let e = match self.parse_expression() {
                Ok(x) => x,
                Err(e) => return Err(e),
            };
            proof {
                lemma_exprs_v_push(arguments@, e);
                lemma_exprs_ids_push(arguments@, e);
                crate::parser::node::lemma_window_join(
                    exprs_ids(arguments@),
                    old(self).ids.issued(),
                    i1,
                    expr_ids(e),
                    i1,
                    self.ids.issued(),
                );
            }
            arguments.push(e);
            if let Some(TokenKindOf::Comma) = self.peek_type() {
            } else {
                break;
            }
            let ghost i2 = self.ids.issued();
            let _ = self.expect_token(TokenKindOf::Comma);
            proof {
                lemma_window_widen(exprs_ids(arguments@), old(self).ids.issued(), i2, old(self).ids.issued(), self.ids.issued());
            }
        }
        Ok(arguments)
    }

    #[verifier::rlimit(30)]
    fn finish_call(&mut self, callee: Expression, Ghost(lo): Ghost<nat>) -> (r: ParseExpressionResult)
        requires
            old(self).wf(),
            lo <= old(self).ids.issued(),
            fresh_ids(expr_ids(callee), lo, old(self).ids.issued()),
            sp_finish_call(old(self).toks(), expr_v(callee), old(self).pos()) !is Halted,
        ensures
            final(self).wf(),
            final(self).keeps(*old(self)),
            expr_outcome(r, final(self).pos(), sp_finish_call(old(self).toks(), expr_v(callee), old(self).pos())),
            fresh_expr(r, lo, final(self).ids.issued()),
        decreases old(self).tokens@.len() - old(self).current, 2int,
    {
        proof {
            reveal(sp_finish_call);
            reveal(sp_arguments);
        }
        match self.expect_token(TokenKindOf::LeftParen) {
            Ok(_) => {},
            Err(e) => return Err(e),
        }
        let ghost i1 = self.ids.issued();
        let arguments = match self.parse_arguments() {
            Ok(a) => a,
            Err(e) => return Err(e),
        };
        let ghost i2 = self.ids.issued();
        proof {
            lemma_exprs_v(arguments@);
            if arguments@.len() > 255 {
                lemma_expr_v_span(arguments@[255]);
            }
        }
        if arguments.len() > 255 {
            return Err(Diagnostic::error(arguments[255].span, "Can't have more than 255 arguments"));
        }
        let end = match self.expect_token(TokenKindOf::RightParen) {
            Ok(s) => s,
            Err(e) => return Err(e),
        };
        proof {
            lemma_node_ids2(expr_ids(callee), lo, old(self).ids.issued(), exprs_ids(arguments@), i1, i2, self.ids.issued());
        }
        Ok(
            Node::encapsulating(
                &mut self.ids,
                callee.span,
                end,
                ExpressionKind::Call(Call { callee: Box::new(callee), arguments }),
            ),
        )
    }

    #[verifier::rlimit(40)]
    pub fn parse_primary(&mut self) -> (r: ParseExpressionResult)
        requires
            old(self).wf(),
            sp_primary(old(self).toks(), old(self).pos()) !is Halted,
        ensures
            final(self).wf(),
            final(self).keeps(*old(self)),
            expr_outcome(r, final(self).pos(), sp_primary(old(self).toks(), old(self).pos())),
            fresh_expr(r, old(self).ids.issued(), final(self).ids.issued()),
        decreases old(self).tokens@.len() - old(self).current, 1int,
    {
        proof {
            reveal(sp_primary);
            reveal(sp_expression);
        }
        let ghost ts = self.toks();
        let ghost p = self.pos();
        let next = match self.advance() {
            Ok(t) => t,
            Err(e) => return Err(e),
        };
        let ghost i1 = self.ids.issued();
        proof {
            crate::parser::node::lemma_leaf_ids(old(self).ids.issued(), i1);
        }
        let sp = next.span;
        match next.node {
            TokenKindOf::True => Ok(Node::new(&mut self.ids, sp, ExpressionKind::Literal(Literal::Bool(true)))),
            TokenKindOf::False => Ok(Node::new(&mut self.ids, sp, ExpressionKind::Literal(Literal::Bool(false)))),
            TokenKindOf::Nil => Ok(Node::new(&mut self.ids, sp, ExpressionKind::Literal(Literal::Nil))),
            TokenKindOf::Number(num) => Ok(Node::new(&mut self.ids, sp, ExpressionKind::Literal(Literal::Number(num)))),
            TokenKindOf::String(s) => Ok(Node::new(&mut self.ids, sp, ExpressionKind::Literal(Literal::String(s)))),
            TokenKindOf::LeftParen => {
                assert(ts[p].0 == SpecTokenKind::LeftParen);
                assert(sp_expression(ts, p + 1) !is Halted);
                let inner = match self.parse_expression() {
                    Ok(e) => e,
                    Err(e) => return Err(e),
                };
                let ghost i2 = self.ids.issued();
                proof {
                    crate::parser::node::lemma_subset_insert(expr_kind_ids(inner.node), inner.id, id_window(i1, i2));
                }
                let right_paren = match self.expect_token(TokenKindOf::RightParen) {
                    Ok(s) => s,
                    Err(e) => return Err(e),
                };
                proof {
                    lemma_expr_v_respan(inner, Span { start: sp.start, end: right_paren.end });
                    lemma_node_ids(expr_kind_ids(inner.node), old(self).ids.issued(), i1, i2, self.ids.issued());
                }
                Ok(Node::encapsulating(&mut self.ids, sp, right_paren, inner.node))
            },
            TokenKindOf::Identifier(_) => Ok(Node::new(&mut self.ids, sp, ExpressionKind::Variable(sp))),
            _ => Err(Diagnostic::error(sp, "unexpected token")),
        }
    }
}

/// The tokens that scanning `src` gives, as the grammar sees them.
pub open spec fn scanned_tokens(src: Seq<char>) -> Seq<TokV> {
    scan_from(src, 0).unwrap().0.map_values(|st: SpecToken| (st.0, spec_span(src, st.1, st.2)))
}

/// The char index at which the byte offset of char index `k` falls is `k`.
pub proof fn lemma_char_index(s: Seq<char>, k: int)
    requires
        0 <= k <= s.len(),
    ensures
        crate::parser::diagnostic::char_index(s, byte_offset(s, k) as int) == k,
{
    let b = byte_offset(s, k) as int;
    assert(0 <= k <= s.len() && byte_offset(s, k) == b);
    let j = crate::parser::diagnostic::char_index(s, b);
    if j < k {
        lemma_byte_offset_strict(s, j, k);
    } else if j > k {
        lemma_byte_offset_strict(s, k, j);
    }
}

/// The tokens that scanning gives, by their byte spans: in source order,
/// apart from one another, each covering at least one byte; an
/// identifier's span covers its name, and a string's span covers its text
/// between two quotes.
pub proof fn law_scanned_spans_follow_the_source(src: Seq<char>)
    requires
        scan_finishes(src),
        byte_len(src) <= usize::MAX,
    ensures
        ({
            let ts = scanned_tokens(src);
            &&& forall|i: int| 0 <= i < ts.len() ==> (#[trigger] ts[i]).1.start < ts[i].1.end <= byte_len(src)
            &&& forall|i: int| 0 <= i < ts.len() - 1 ==> (#[trigger] ts[i]).1.end <= ts[i + 1].1.start
            &&& forall|i: int|
                0 <= i < ts.len() ==> ((#[trigger] ts[i]).0 matches TokenKindOf::Identifier(x) ==> ts[i].1.text_in(src) == x)
            &&& forall|i: int|
                0 <= i < ts.len() ==> ((#[trigger] ts[i]).0 matches TokenKindOf::String(x) ==> ts[i].1.text_in(src)
                    == seq!['"'] + x + seq!['"'])
        }),
{
    let sts = scan_from(src, 0).unwrap().0;
    let ts = scanned_tokens(src);
    crate::parser::lexing::law_scanned_tokens_follow_the_source(src, 0);
    assert(src.take(src.len() as int) =~= src);
    assert forall|i: int| 0 <= i < ts.len() implies (#[trigger] ts[i]).1.start < ts[i].1.end <= byte_len(src) by {
        let t = sts[i];
        lemma_byte_offset_strict(src, t.1, t.2);
        lemma_byte_offset_mono(src, t.2, src.len() as int);
    }
    assert forall|i: int| 0 <= i < ts.len() - 1 implies (#[trigger] ts[i]).1.end <= ts[i + 1].1.start by {
        let t = sts[i];
        let u = sts[i + 1];
        lemma_byte_offset_mono(src, t.2, u.1);
        lemma_byte_offset_mono(src, u.1, src.len() as int);
        lemma_byte_offset_mono(src, t.2, src.len() as int);
        assert(ts[i + 1] == (u.0, spec_span(src, u.1, u.2)));
    }
    assert forall|i: int| 0 <= i < ts.len() implies ((#[trigger] ts[i]).0 matches TokenKindOf::Identifier(x)
        ==> ts[i].1.text_in(src) == x) by {
        let t = sts[i];
        lemma_byte_offset_mono(src, t.1, src.len() as int);
        lemma_byte_offset_mono(src, t.2, src.len() as int);
        lemma_char_index(src, t.1);
        lemma_char_index(src, t.2);
    }
    assert forall|i: int| 0 <= i < ts.len() implies ((#[trigger] ts[i]).0 matches TokenKindOf::String(x)
        ==> ts[i].1.text_in(src) == seq!['"'] + x + seq!['"']) by {
        let t = sts[i];
        lemma_byte_offset_mono(src, t.1, src.len() as int);
        lemma_byte_offset_mono(src, t.2, src.len() as int);
        lemma_char_index(src, t.1);
        lemma_char_index(src, t.2);
        if let TokenKindOf::String(x) = t.0 {
            assert(src.subrange(t.1, t.2) =~= seq!['"'] + x + seq!['"']);
        }
    }
}

/// Every token that scanning finds covers whole chars of the source.
pub proof fn lemma_scanned_idents_ok(src: Seq<char>)
    requires
        scan_finishes(src),
        byte_len(src) <= usize::MAX,
    ensures
        idents_ok(scanned_tokens(src), src),
{
    let sts = scan_from(src, 0).unwrap().0;
    let ts = scanned_tokens(src);
    lemma_scan_bounds(src, 0);
    assert(src.take(src.len() as int) =~= src);
    assert forall|i: int| 0 <= i < ts.len() && (#[trigger] ts[i]).0 is Identifier implies ts[i].1.valid_in(src) by {
        let t = sts[i];
        lemma_byte_offset_mono(src, t.1, t.2);
        lemma_byte_offset_mono(src, t.2, src.len() as int);
        assert(byte_offset(src, t.1) == ts[i].1.start);
        assert(byte_offset(src, t.2) == ts[i].1.end);
    }
}

/// What `parse_str` gives for `src`: the declarations that parse, then
/// the scanner's diagnostics followed by the parser's errors.
pub open spec fn parse_result_is(src: Seq<char>, decls: Seq<Declaration>, diags: Seq<Diagnostic>) -> bool {
    let scan_diags = scan_from(src, 0).unwrap().1;
    let program = sp_program(scanned_tokens(src), 0, seq![], seq![]).unwrap();
    &&& decls_v(decls) == program.0
    &&& diags.len() >= scan_diags.len()
    &&& forall|i: int| 0 <= i < scan_diags.len() ==> diagnostic_is(src, #[trigger] diags[i], scan_diags[i])
    &&& errors_are(diags.subrange(scan_diags.len() as int, diags.len() as int), program.1)
}

pub type ParseResult = (Vec<Declaration>, Vec<Diagnostic>);

/// Scans and parses `source`, numbering its nodes from a fresh `NodeIds`.
pub fn parse_str(source: &str) -> (r: ParseResult)
    requires
        scan_finishes(source@),
    ensures
        parse_result_is(source@, r.0@, r.1@),
{
    let mut ids = NodeIds::new();
    parse_str_with_ids(source, &mut ids)
}

/// Scans and parses `source`, taking node ids from `ids` where the last
/// parse left off, so that programs parsed one after another (the lines of
/// a prompt) have nodes with different ids, until the `u64` ids run out.
pub fn parse_str_with_ids(source: &str, ids: &mut NodeIds) -> (r: ParseResult)
    requires
        scan_finishes(source@),
    ensures
        parse_result_is(source@, r.0@, r.1@),
        final(ids).issued() >= old(ids).issued(),
        fresh_ids(decls_ids(r.0@), old(ids).issued(), final(ids).issued()),
        final(ids).issued() - old(ids).issued() <= id_space() ==> forall|x: u64| #[trigger] decls_ids(r.0@).count(x) <= 1,
{
    proof {
        crate::parser::progress::lemma_program(scanned_tokens(source@), 0, seq![], seq![]);
    }
    let (tokens, diag) = scan(source);
    let mut parser = Parser::new(tokens, diag);
    std::mem::swap(&mut parser.ids, ids);
    proof {
        let src = source@;
        let sts = scan_from(src, 0).unwrap().0;
        assert(parser.toks().len() == scanned_tokens(src).len());
        assert forall|i: int| 0 <= i < sts.len() implies parser.toks()[i] == scanned_tokens(src)[i] by {
            assert(token_is(src, parser.tokens@[i], sts[i]));
        }
        assert(parser.toks() =~= scanned_tokens(src));
        assert(decls_v(parser.decls@) =~= Seq::<DeclV>::empty());
    }
    let ghost before = parser.diagnostics@;
    parser.parse();
    proof {
        let n = before.len() as int;
        assert forall|i: int| 0 <= i < n implies parser.diagnostics@[i] == before[i] by {
            assert(parser.diagnostics@.subrange(0, n)[i] == parser.diagnostics@[i]);
        }
        let program = sp_program(scanned_tokens(source@), 0, seq![], seq![]).unwrap();
        let scan_diags = scan_from(source@, 0).unwrap().1;
        assert(Seq::<DeclV>::empty() + program.0 =~= program.0);
        assert(decls_v(parser.decls@) == program.0);
        assert(n == scan_diags.len());
        assert forall|i: int| 0 <= i < scan_diags.len() implies diagnostic_is(
            source@,
            #[trigger] parser.diagnostics@[i],
            scan_diags[i],
        ) by {
            assert(parser.diagnostics@[i] == before[i]);
        }
        assert(errors_are(parser.diagnostics@.subrange(n, parser.diagnostics@.len() as int), program.1));
    }
    std::mem::swap(&mut parser.ids, ids);
    proof {
        if ids.issued() - old(ids).issued() <= id_space() {
            crate::parser::node::lemma_window_distinct(old(ids).issued(), ids.issued());
            assert forall|x: u64| #[trigger] decls_ids(parser.decls@).count(x) <= 1 by {
                assert(decls_ids(parser.decls@).count(x) <= id_window(old(ids).issued(), ids.issued()).count(x));
            }
        }
    }
    (parser.decls, parser.diagnostics)
}

} // verus!
