//! What the parser produces, stated over token views.
//!
//! Each function here describes one parsing routine of `Parser`: given the
//! tokens and a position, it gives the tree that the routine builds (as a
//! view, without node ids) and the position after it, or the error it
//! reports and the position where it stopped.
use crate::parser::ast::{BinaryOp, DeclV, ExprV, FunV, LiteralV, LogicalOp, StmtV};
use crate::parser::span::Span;
use crate::parser::token::{SpecTokenKind, TokenKindOf};
use vstd::prelude::*;

verus! {

/// A token as the parser sees it: its kind and its span.
pub type TokV = (SpecTokenKind, Span);

/// The outcome of a parsing routine.
pub enum Parsed<T> {
    /// It built `T`; parsing goes on at the position given.
    Done(T, int),
    /// It reported an error at the span, with the message, and stopped at
    /// the position given.
    Failed(Span, Seq<char>, int),
    /// A position went backwards. This never happens (see
    /// `progress::law_parsing_moves_on`); the grammar's checks for it only
    /// show that its recursion ends.
    Halted,
}

/// How `str`'s `Debug` shows `s`, quotes and escapes included.
pub uninterp spec fn str_debug(s: Seq<char>) -> Seq<char>;

/// How a token kind is shown in messages.
pub open spec fn kind_debug(k: SpecTokenKind) -> Seq<char> {
    match k {
        TokenKindOf::LeftParen => "LeftParen"@,
        TokenKindOf::RightParen => "RightParen"@,
        TokenKindOf::LeftBrace => "LeftBrace"@,
        TokenKindOf::RightBrace => "RightBrace"@,
        TokenKindOf::Comma => "Comma"@,
        TokenKindOf::Dot => "Dot"@,
        TokenKindOf::Minus => "Minus"@,
        TokenKindOf::Plus => "Plus"@,
        TokenKindOf::Semicolon => "Semicolon"@,
        TokenKindOf::Slash => "Slash"@,
        TokenKindOf::Star => "Star"@,
        TokenKindOf::Bang => "Bang"@,
        TokenKindOf::BangEqual => "BangEqual"@,
        TokenKindOf::Equal => "Equal"@,
        TokenKindOf::EqualEqual => "EqualEqual"@,
        TokenKindOf::Greater => "Greater"@,
        TokenKindOf::GreaterEqual => "GreaterEqual"@,
        TokenKindOf::Less => "Less"@,
        TokenKindOf::LessEqual => "LessEqual"@,
        TokenKindOf::Identifier(s) => "Identifier("@ + str_debug(s) + ")"@,
        TokenKindOf::String(s) => "String("@ + str_debug(s) + ")"@,
        TokenKindOf::Number(s) => "Number("@ + s + ")"@,
        TokenKindOf::And => "And"@,
        TokenKindOf::Class => "Class"@,
        TokenKindOf::Else => "Else"@,
        TokenKindOf::False => "False"@,
        TokenKindOf::Fun => "Fun"@,
        TokenKindOf::For => "For"@,
        TokenKindOf::If => "If"@,
        TokenKindOf::Nil => "Nil"@,
        TokenKindOf::Or => "Or"@,
        TokenKindOf::Print => "Print"@,
        TokenKindOf::Return => "Return"@,
        TokenKindOf::Super => "Super"@,
        TokenKindOf::This => "This"@,
        TokenKindOf::True => "True"@,
        TokenKindOf::Var => "Var"@,
        TokenKindOf::While => "While"@,
    }
}

pub open spec fn expected_message(expected: SpecTokenKind, found: SpecTokenKind) -> Seq<char> {
    "expected token "@ + kind_debug(expected) + ", found "@ + kind_debug(found)
}

pub open spec fn kind_at(ts: Seq<TokV>, p: int) -> Option<SpecTokenKind> {
    if 0 <= p < ts.len() {
        Some(ts[p].0)
    } else {
        None
    }
}

/// The span of the token at `p`; past the end, an empty span at the end of
/// the last token (`0..0` with no tokens).
pub open spec fn current_span(ts: Seq<TokV>, p: int) -> Span {
    if 0 <= p < ts.len() {
        ts[p].1
    } else if ts.len() > 0 {
        Span { start: ts.last().1.end, end: ts.last().1.end }
    } else {
        Span { start: 0, end: 0 }
    }
}

pub open spec fn between(a: Span, b: Span) -> Span {
    Span { start: a.start, end: b.end }
}

/// Takes the token at `p`, which must be `k`.
pub open spec fn sp_expect(ts: Seq<TokV>, p: int, k: SpecTokenKind) -> Parsed<Span> {
    if 0 <= p < ts.len() {
        if ts[p].0 == k {
            Parsed::Done(ts[p].1, p + 1)
        } else {
            Parsed::Failed(ts[p].1, expected_message(k, ts[p].0), p + 1)
        }
    } else {
        Parsed::Failed(current_span(ts, p), "unexpected end of input"@, p)
    }
}

/// Takes the token at `p`, which must be an identifier.
pub open spec fn sp_expect_identifier(ts: Seq<TokV>, p: int) -> Parsed<Span> {
    if 0 <= p < ts.len() {
        if ts[p].0 is Identifier {
            Parsed::Done(ts[p].1, p + 1)
        } else {
            Parsed::Failed(ts[p].1, "expected an identifier"@, p + 1)
        }
    } else {
        Parsed::Failed(current_span(ts, p), "unexpected end of input"@, p)
    }
}

/// After an error: skips to just past the next `;`, or to the next token
/// that starts a statement, or to the end.
pub open spec fn sp_synchronize(ts: Seq<TokV>, p: int) -> int
    decreases ts.len() - p,
{
    if p < 0 || p >= ts.len() {
        p
    } else {
        match ts[p].0 {
            TokenKindOf::Semicolon => p + 1,
            TokenKindOf::Class | TokenKindOf::Fun | TokenKindOf::Var | TokenKindOf::For
            | TokenKindOf::If | TokenKindOf::While | TokenKindOf::Print | TokenKindOf::Return => p,
            _ => sp_synchronize(ts, p + 1),
        }
    }
}

/// The failure `r` carried over to a routine with another result.
pub open spec fn fails<A, B>(r: Parsed<A>) -> Parsed<B> {
    match r {
        Parsed::Failed(s, m, p) => Parsed::Failed(s, m, p),
        _ => Parsed::Halted,
    }
}

/// `p2` is a position at or after `p`, within the tokens.
pub open spec fn forward(ts: Seq<TokV>, p: int, p2: int) -> bool {
    p <= p2 <= ts.len()
}

/// The binary operator levels, from the loosest.
#[derive(Debug, Clone, Copy)]
pub enum Level {
    Equality,
    Comparison,
    Term,
    Factor,
}

pub open spec fn level_rank(l: Level) -> int {
    match l {
        Level::Equality => 4,
        Level::Comparison => 3,
        Level::Term => 2,
        Level::Factor => 1,
    }
}

/// The level whose expressions are the operands at level `l` (above
/// `Factor`).
pub open spec fn operand_level(l: Level) -> Level {
    match l {
        Level::Equality => Level::Comparison,
        Level::Comparison => Level::Term,
        _ => Level::Factor,
    }
}

/// The operator that token kind `k` stands for at level `l`, if any.
pub open spec fn op_at(l: Level, k: SpecTokenKind) -> Option<BinaryOp> {
    match l {
        Level::Equality => match k {
            TokenKindOf::BangEqual => Some(BinaryOp::NotEqual),
            TokenKindOf::EqualEqual => Some(BinaryOp::Equal),
            _ => None,
        },
        Level::Comparison => match k {
            TokenKindOf::Greater => Some(BinaryOp::Greater),
            TokenKindOf::GreaterEqual => Some(BinaryOp::GreaterEqual),
            TokenKindOf::Less => Some(BinaryOp::Less),
            TokenKindOf::LessEqual => Some(BinaryOp::LessEqual),
            _ => None,
        },
        Level::Term => match k {
            TokenKindOf::Plus => Some(BinaryOp::Add),
            TokenKindOf::Minus => Some(BinaryOp::Subtract),
            _ => None,
        },
        Level::Factor => match k {
            TokenKindOf::Slash => Some(BinaryOp::Divide),
            TokenKindOf::Star => Some(BinaryOp::Multiply),
            _ => None,
        },
    }
}

/// The token that spells `op` in source text.
pub open spec fn op_token(op: BinaryOp) -> SpecTokenKind {
    match op {
        BinaryOp::Divide => TokenKindOf::Slash,
        BinaryOp::Multiply => TokenKindOf::Star,
        BinaryOp::Add => TokenKindOf::Plus,
        BinaryOp::Subtract => TokenKindOf::Minus,
        BinaryOp::Greater => TokenKindOf::Greater,
        BinaryOp::GreaterEqual => TokenKindOf::GreaterEqual,
        BinaryOp::Less => TokenKindOf::Less,
        BinaryOp::LessEqual => TokenKindOf::LessEqual,
        BinaryOp::Equal => TokenKindOf::EqualEqual,
        BinaryOp::NotEqual => TokenKindOf::BangEqual,
    }
}

/// How tightly `op` binds, from the loosest level: equality, comparison,
/// terms, factors.
pub open spec fn op_precedence(op: BinaryOp) -> int {
    match op {
        BinaryOp::Equal | BinaryOp::NotEqual => 4,
        BinaryOp::Greater | BinaryOp::GreaterEqual | BinaryOp::Less | BinaryOp::LessEqual => 3,
        BinaryOp::Add | BinaryOp::Subtract => 2,
        BinaryOp::Divide | BinaryOp::Multiply => 1,
    }
}

/// A binary node carries the operator that its token spells: a token read
/// at some level stands for an operator only if it spells that operator and
/// the operator binds at that level; and every operator's token stands for
/// it at its level.
pub proof fn law_operators_are_the_tokens_that_spell_them(l: Level, k: SpecTokenKind, op: BinaryOp)
    ensures
        op_at(l, k) == Some(op) ==> op_token(op) == k && op_precedence(op) == level_rank(l),
        op_precedence(op) == level_rank(l) ==> op_at(l, op_token(op)) == Some(op),
{
}

/// A declaration that wraps a statement, with the statement's span.
pub open spec fn decl_of_stmt(s: StmtV) -> DeclV {
    DeclV::Statement(s.span(), s)
}

/// A declaration that wraps an expression statement, with the expression's
/// span.
pub open spec fn decl_of_expr(e: ExprV) -> DeclV {
    DeclV::Statement(e.span(), StmtV::Expression(e.span(), e))
}

/// A block of declarations, spanning from the first to the last (`0..0`
/// when empty).
pub open spec fn block_of(ds: Seq<DeclV>) -> StmtV {
    StmtV::Block(
        Span {
            start: if ds.len() > 0 {
                ds[0].span().start
            } else {
                0
            },
            end: if ds.len() > 0 {
                ds.last().span().end
            } else {
                0
            },
        },
        ds,
    )
}

// Expressions.

/// `primary := "true" | "false" | "nil" | NUMBER | STRING | "(" expression ")" | IDENTIFIER`
#[verifier::opaque]
pub open spec fn sp_primary(ts: Seq<TokV>, p: int) -> Parsed<ExprV>
    decreases ts.len() - p, 1int,
{
    if !(0 <= p < ts.len()) {
        Parsed::Failed(current_span(ts, p), "unexpected end of input"@, p)
    } else {
        let sp = ts[p].1;
        let q = p + 1;
        match ts[p].0 {
            TokenKindOf::True => Parsed::Done(ExprV::Literal(sp, LiteralV::Bool(true)), q),
            TokenKindOf::False => Parsed::Done(ExprV::Literal(sp, LiteralV::Bool(false)), q),
            TokenKindOf::Nil => Parsed::Done(ExprV::Literal(sp, LiteralV::Nil), q),
            TokenKindOf::Number(s) => Parsed::Done(ExprV::Literal(sp, LiteralV::Number(s)), q),
            TokenKindOf::String(s) => Parsed::Done(ExprV::Literal(sp, LiteralV::String(s)), q),
            TokenKindOf::LeftParen => match sp_expression(ts, q) {
                Parsed::Done(inner, p2) => match sp_expect(ts, p2, TokenKindOf::RightParen) {
                    Parsed::Done(rp, p3) => Parsed::Done(inner.with_span(between(sp, rp)), p3),
                    Parsed::Failed(s, m, p3) => Parsed::Failed(s, m, p3),
                    Parsed::Halted => Parsed::Halted,
                },
                Parsed::Failed(s, m, p2) => Parsed::Failed(s, m, p2),
                Parsed::Halted => Parsed::Halted,
            },
            TokenKindOf::Identifier(_) => Parsed::Done(ExprV::Variable(sp, sp), q),
            _ => Parsed::Failed(sp, "unexpected token"@, q),
        }
    }
}

/// The arguments of a call, from `q` up to (not including) the closing
/// parenthesis, after those in `acc`.
#[verifier::opaque]
pub open spec fn sp_arguments(ts: Seq<TokV>, q: int, acc: Seq<ExprV>) -> Parsed<Seq<ExprV>>
    decreases ts.len() - q, 25int,
{
    if kind_at(ts, q) == Some(SpecTokenKind::RightParen) {
        Parsed::Done(acc, q)
    } else {
        match sp_expression(ts, q) {
            Parsed::Done(e, p2) => if !forward(ts, q, p2) {
                Parsed::Halted
            } else if kind_at(ts, p2) != Some(SpecTokenKind::Comma) {
                Parsed::Done(acc.push(e), p2)
            } else {
                sp_arguments(ts, p2 + 1, acc.push(e))
            },
            Parsed::Failed(s, m, p2) => Parsed::Failed(s, m, p2),
            Parsed::Halted => Parsed::Halted,
        }
    }
}

/// `"(" arguments? ")"` after `callee`, starting at `q`.
#[verifier::opaque]
pub open spec fn sp_finish_call(ts: Seq<TokV>, callee: ExprV, q: int) -> Parsed<ExprV>
    decreases ts.len() - q, 2int,
{
    match sp_expect(ts, q, TokenKindOf::LeftParen) {
        Parsed::Done(_, _) => match sp_arguments(ts, q + 1, Seq::empty()) {
            Parsed::Done(args, p2) => if args.len() > 255 {
                Parsed::Failed(args[255].span(), "Can't have more than 255 arguments"@, p2)
            } else {
                match sp_expect(ts, p2, TokenKindOf::RightParen) {
                    Parsed::Done(end, p3) => Parsed::Done(
                        ExprV::Call(between(callee.span(), end), Box::new(callee), args),
                        p3,
                    ),
                    Parsed::Failed(s, m, p3) => Parsed::Failed(s, m, p3),
                    Parsed::Halted => Parsed::Halted,
                }
            },
            Parsed::Failed(s, m, p2) => Parsed::Failed(s, m, p2),
            Parsed::Halted => Parsed::Halted,
        },
        Parsed::Failed(s, m, p2) => Parsed::Failed(s, m, p2),
        Parsed::Halted => Parsed::Halted,
    }
}

/// The calls that follow `callee`, from `q`.
#[verifier::opaque]
pub open spec fn sp_calls(ts: Seq<TokV>, callee: ExprV, q: int) -> Parsed<ExprV>
    decreases ts.len() - q, 3int,
{
    if kind_at(ts, q) == Some(SpecTokenKind::LeftParen) {
        match sp_finish_call(ts, callee, q) {
            Parsed::Done(e, p3) => if !forward(ts, q + 1, p3) {
                Parsed::Halted
            } else {
                sp_calls(ts, e, p3)
            },
            Parsed::Failed(s, m, p3) => Parsed::Failed(s, m, p3),
            Parsed::Halted => Parsed::Halted,
        }
    } else {
        Parsed::Done(callee, q)
    }
}

/// `call := primary ( "(" arguments? ")" )*`
#[verifier::opaque]
pub open spec fn sp_call(ts: Seq<TokV>, p: int) -> Parsed<ExprV>
    decreases ts.len() - p, 4int,
{
    match sp_primary(ts, p) {
        Parsed::Done(e, p2) => if !forward(ts, p, p2) {
            Parsed::Halted
        } else {
            sp_calls(ts, e, p2)
        },
        Parsed::Failed(s, m, p2) => Parsed::Failed(s, m, p2),
        Parsed::Halted => Parsed::Halted,
    }
}

/// `unary := ( "!" | "-" ) unary | call`
#[verifier::opaque]
pub open spec fn sp_unary(ts: Seq<TokV>, p: int) -> Parsed<ExprV>
    decreases ts.len() - p, 10int,
{
    match kind_at(ts, p) {
        Some(TokenKindOf::Bang) => match sp_unary(ts, p + 1) {
            Parsed::Done(inner, p2) => Parsed::Done(
                ExprV::Not(Span { start: ts[p].1.start, end: inner.span().end }, Box::new(inner)),
                p2,
            ),
            Parsed::Failed(s, m, p2) => Parsed::Failed(s, m, p2),
            Parsed::Halted => Parsed::Halted,
        },
        Some(TokenKindOf::Minus) => match sp_unary(ts, p + 1) {
            Parsed::Done(inner, p2) => Parsed::Done(
                ExprV::Negate(Span { start: ts[p].1.start, end: inner.span().end }, Box::new(inner)),
                p2,
            ),
            Parsed::Failed(s, m, p2) => Parsed::Failed(s, m, p2),
            Parsed::Halted => Parsed::Halted,
        },
        _ => sp_call(ts, p),
    }
}

/// An operand at level `l`.
#[verifier::opaque]
pub open spec fn sp_operand(ts: Seq<TokV>, l: Level, p: int) -> Parsed<ExprV>
    decreases ts.len() - p, 10 + 2 * level_rank(l),
{
    match l {
        Level::Factor => sp_unary(ts, p),
        _ => sp_binary(ts, operand_level(l), p),
    }
}

/// The operators and operands at level `l` that follow `left`, from `q`;
/// they group to the left.
#[verifier::opaque]
pub open spec fn sp_binary_rest(ts: Seq<TokV>, l: Level, left: ExprV, q: int) -> Parsed<ExprV>
    decreases ts.len() - q, 10 + 2 * level_rank(l),
{
    match kind_at(ts, q) {
        Some(k) => match op_at(l, k) {
            Some(op) => match sp_operand(ts, l, q + 1) {
                Parsed::Done(right, p3) => if !forward(ts, q + 1, p3) {
                    Parsed::Halted
                } else {
                    sp_binary_rest(
                        ts,
                        l,
                        ExprV::Binary(between(left.span(), right.span()), Box::new(left), op, Box::new(right)),
                        p3,
                    )
                },
                Parsed::Failed(s, m, p3) => Parsed::Failed(s, m, p3),
                Parsed::Halted => Parsed::Halted,
            },
            None => Parsed::Done(left, q),
        },
        None => Parsed::Done(left, q),
    }
}

/// `level := operand ( OP operand )*` for the operators of level `l`.
#[verifier::opaque]
pub open spec fn sp_binary(ts: Seq<TokV>, l: Level, p: int) -> Parsed<ExprV>
    decreases ts.len() - p, 11 + 2 * level_rank(l),
{
    match sp_operand(ts, l, p) {
        Parsed::Done(left, p2) => if !forward(ts, p, p2) {
            Parsed::Halted
        } else {
            sp_binary_rest(ts, l, left, p2)
        },
        Parsed::Failed(s, m, p2) => Parsed::Failed(s, m, p2),
        Parsed::Halted => Parsed::Halted,
    }
}

/// The `and`s and their operands that follow `left`, from `q`; they group
/// to the left.
#[verifier::opaque]
pub open spec fn sp_and_rest(ts: Seq<TokV>, left: ExprV, q: int) -> Parsed<ExprV>
    decreases ts.len() - q, 20int,
{
    if kind_at(ts, q) == Some(SpecTokenKind::And) {
        match sp_binary(ts, Level::Equality, q + 1) {
            Parsed::Done(right, p3) => if !forward(ts, q + 1, p3) {
                Parsed::Halted
            } else {
                sp_and_rest(
                    ts,
                    ExprV::Logical(between(left.span(), right.span()), Box::new(left), LogicalOp::And, Box::new(right)),
                    p3,
                )
            },
            Parsed::Failed(s, m, p3) => Parsed::Failed(s, m, p3),
            Parsed::Halted => Parsed::Halted,
        }
    } else {
        Parsed::Done(left, q)
    }
}

/// `logic_and := equality ( "and" equality )*`
#[verifier::opaque]
pub open spec fn sp_logic_and(ts: Seq<TokV>, p: int) -> Parsed<ExprV>
    decreases ts.len() - p, 21int,
{
    match sp_binary(ts, Level::Equality, p) {
        Parsed::Done(left, p2) => if !forward(ts, p, p2) {
            Parsed::Halted
        } else {
            sp_and_rest(ts, left, p2)
        },
        Parsed::Failed(s, m, p2) => Parsed::Failed(s, m, p2),
        Parsed::Halted => Parsed::Halted,
    }
}

/// The `or`s and their operands that follow `left`, from `q`; they group to
/// the left.
#[verifier::opaque]
pub open spec fn sp_or_rest(ts: Seq<TokV>, left: ExprV, q: int) -> Parsed<ExprV>
    decreases ts.len() - q, 21int,
{
    if kind_at(ts, q) == Some(SpecTokenKind::Or) {
        match sp_logic_and(ts, q + 1) {
            Parsed::Done(right, p3) => if !forward(ts, q + 1, p3) {
                Parsed::Halted
            } else {
                sp_or_rest(
                    ts,
                    ExprV::Logical(between(left.span(), right.span()), Box::new(left), LogicalOp::Or, Box::new(right)),
                    p3,
                )
            },
            Parsed::Failed(s, m, p3) => Parsed::Failed(s, m, p3),
            Parsed::Halted => Parsed::Halted,
        }
    } else {
        Parsed::Done(left, q)
    }
}

/// `logic_or := logic_and ( "or" logic_and )*`
#[verifier::opaque]
pub open spec fn sp_logic_or(ts: Seq<TokV>, p: int) -> Parsed<ExprV>
    decreases ts.len() - p, 22int,
{
    match sp_logic_and(ts, p) {
        Parsed::Done(left, p2) => if !forward(ts, p, p2) {
            Parsed::Halted
        } else {
            sp_or_rest(ts, left, p2)
        },
        Parsed::Failed(s, m, p2) => Parsed::Failed(s, m, p2),
        Parsed::Halted => Parsed::Halted,
    }
}

/// `assignment := logic_or ( "=" assignment )?`, where the left side must be
/// a variable.
#[verifier::opaque]
pub open spec fn sp_assignment(ts: Seq<TokV>, p: int) -> Parsed<ExprV>
    decreases ts.len() - p, 23int,
{
    match sp_logic_or(ts, p) {
        Parsed::Done(e, p2) => if !forward(ts, p, p2) {
            Parsed::Halted
        } else if kind_at(ts, p2) == Some(SpecTokenKind::Equal) {
            match sp_assignment(ts, p2 + 1) {
                Parsed::Done(v, p3) => match e {
                    ExprV::Variable(_, name) => Parsed::Done(
                        ExprV::Assign(between(e.span(), v.span()), name, Box::new(v)),
                        p3,
                    ),
                    _ => Parsed::Failed(e.span(), "Invalid assignment target"@, p3),
                },
                Parsed::Failed(s, m, p3) => Parsed::Failed(s, m, p3),
                Parsed::Halted => Parsed::Halted,
            }
        } else {
            Parsed::Done(e, p2)
        },
        Parsed::Failed(s, m, p2) => Parsed::Failed(s, m, p2),
        Parsed::Halted => Parsed::Halted,
    }
}

/// `expression := assignment`
#[verifier::opaque]
pub open spec fn sp_expression(ts: Seq<TokV>, p: int) -> Parsed<ExprV>
    decreases ts.len() - p, 24int,
{
    sp_assignment(ts, p)
}

// Statements and declarations.

/// `returnStmt := "return" expression ";"`
#[verifier::opaque]
pub open spec fn sp_return_statement(ts: Seq<TokV>, p: int) -> Parsed<StmtV>
    decreases ts.len() - p, 26int,
{
    match sp_expect(ts, p, TokenKindOf::Return) {
        Parsed::Done(kw, _) => match sp_expression(ts, p + 1) {
            Parsed::Done(e, p2) => match sp_expect(ts, p2, TokenKindOf::Semicolon) {
                Parsed::Done(semi, p3) => Parsed::Done(StmtV::Return(between(kw, semi), Some(e)), p3),
                other => fails(other),
            },
            other => fails(other),
        },
        other => fails(other),
    }
}

/// The declarations of a block, from `q` up to (not including) its closing
/// brace, after those in `acc`.
#[verifier::opaque]
pub open spec fn sp_block_items(ts: Seq<TokV>, q: int, acc: Seq<DeclV>) -> Parsed<Seq<DeclV>>
    decreases ts.len() - q, 30int,
{
    match kind_at(ts, q) {
        None => Parsed::Done(acc, q),
        Some(TokenKindOf::RightBrace) => Parsed::Done(acc, q),
        _ => match sp_declaration(ts, q) {
            Parsed::Done(d, p2) => if !forward(ts, q + 1, p2) {
                Parsed::Halted
            } else {
                sp_block_items(ts, p2, acc.push(d))
            },
            other => fails(other),
        },
    }
}

/// `block := "{" declaration* "}"`
#[verifier::opaque]
pub open spec fn sp_block_statement(ts: Seq<TokV>, p: int) -> Parsed<StmtV>
    decreases ts.len() - p, 26int,
{
    match sp_expect(ts, p, TokenKindOf::LeftBrace) {
        Parsed::Done(open, _) => match sp_block_items(ts, p + 1, Seq::empty()) {
            Parsed::Done(ds, p2) => match sp_expect(ts, p2, TokenKindOf::RightBrace) {
                Parsed::Done(close, p3) => Parsed::Done(StmtV::Block(between(open, close), ds), p3),
                other => fails(other),
            },
            other => fails(other),
        },
        other => fails(other),
    }
}

/// `ifStmt := "if" "(" expression ")" statement ( "else" statement )?`
#[verifier::opaque]
pub open spec fn sp_if_statement(ts: Seq<TokV>, p: int) -> Parsed<StmtV>
    decreases ts.len() - p, 26int,
{
    match sp_expect(ts, p, TokenKindOf::If) {
        Parsed::Done(kw, _) => match sp_expect(ts, p + 1, TokenKindOf::LeftParen) {
            Parsed::Done(_, _) => match sp_expression(ts, p + 2) {
                Parsed::Done(cond, p3) => if !forward(ts, p + 2, p3) {
                    Parsed::Halted
                } else {
                    match sp_expect(ts, p3, TokenKindOf::RightParen) {
                        Parsed::Done(_, _) => match sp_statement(ts, p3 + 1) {
                            Parsed::Done(then_s, p5) => if !forward(ts, p3 + 1, p5) {
                                Parsed::Halted
                            } else if kind_at(ts, p5) == Some(SpecTokenKind::Else) {
                                match sp_statement(ts, p5 + 1) {
                                    Parsed::Done(else_s, p6) => Parsed::Done(
                                        StmtV::If(
                                            Span { start: kw.start, end: else_s.span().end },
                                            cond,
                                            Box::new(then_s),
                                            Some(Box::new(else_s)),
                                        ),
                                        p6,
                                    ),
                                    other => fails(other),
                                }
                            } else {
                                Parsed::Done(
                                    StmtV::If(
                                        Span { start: kw.start, end: then_s.span().end },
                                        cond,
                                        Box::new(then_s),
                                        None,
                                    ),
                                    p5,
                                )
                            },
                            other => fails(other),
                        },
                        other => fails(other),
                    }
                },
                other => fails(other),
            },
            other => fails(other),
        },
        other => fails(other),
    }
}

/// `whileStmt := "while" "(" expression ")" statement`
#[verifier::opaque]
pub open spec fn sp_while_statement(ts: Seq<TokV>, p: int) -> Parsed<StmtV>
    decreases ts.len() - p, 26int,
{
    match sp_expect(ts, p, TokenKindOf::While) {
        Parsed::Done(kw, _) => match sp_expect(ts, p + 1, TokenKindOf::LeftParen) {
            Parsed::Done(_, _) => match sp_expression(ts, p + 2) {
                Parsed::Done(cond, p3) => if !forward(ts, p + 2, p3) {
                    Parsed::Halted
                } else {
                    match sp_expect(ts, p3, TokenKindOf::RightParen) {
                        Parsed::Done(_, _) => match sp_statement(ts, p3 + 1) {
                            Parsed::Done(body, p5) => Parsed::Done(
                                StmtV::While(between(kw, body.span()), cond, Box::new(body)),
                                p5,
                            ),
                            other => fails(other),
                        },
                        other => fails(other),
                    }
                },
                other => fails(other),
            },
            other => fails(other),
        },
        other => fails(other),
    }
}

/// The initializer of a `for` loop: `;`, a variable declaration, or an
/// expression statement.
#[verifier::opaque]
pub open spec fn sp_for_init(ts: Seq<TokV>, q: int) -> Parsed<Option<DeclV>>
    decreases ts.len() - q, 29int,
{
    match kind_at(ts, q) {
        Some(TokenKindOf::Semicolon) => Parsed::Done(None, q + 1),
        Some(TokenKindOf::Var) => match sp_var_declaration(ts, q) {
            Parsed::Done(d, p2) => Parsed::Done(Some(d), p2),
            other => fails(other),
        },
        _ => match sp_statement_declaration(ts, q) {
            Parsed::Done(d, p2) => Parsed::Done(Some(d), p2),
            other => fails(other),
        },
    }
}

/// The condition of a `for` loop and its `;`. A missing condition is `true`,
/// at the span of the token after the `;`.
#[verifier::opaque]
pub open spec fn sp_for_condition(ts: Seq<TokV>, q: int) -> Parsed<ExprV>
    decreases ts.len() - q, 25int,
{
    match kind_at(ts, q) {
        Some(TokenKindOf::Semicolon) => Parsed::Done(
            ExprV::Literal(current_span(ts, q + 1), LiteralV::Bool(true)),
            q + 1,
        ),
        _ => match sp_expression(ts, q) {
            Parsed::Done(e, p2) => match sp_expect(ts, p2, TokenKindOf::Semicolon) {
                Parsed::Done(_, p3) => Parsed::Done(e, p3),
                other => fails(other),
            },
            other => fails(other),
        },
    }
}

/// The increment of a `for` loop, if there is one before the `)`.
#[verifier::opaque]
pub open spec fn sp_for_increment(ts: Seq<TokV>, q: int) -> Parsed<Option<ExprV>>
    decreases ts.len() - q, 25int,
{
    match kind_at(ts, q) {
        Some(TokenKindOf::RightParen) => Parsed::Done(None, q),
        _ => match sp_expression(ts, q) {
            Parsed::Done(e, p2) => Parsed::Done(Some(e), p2),
            other => fails(other),
        },
    }
}

/// What a `for` loop stands for: a block with the initializer, then a
/// `while` loop whose body runs the increment after the loop's body.
pub open spec fn for_loop(kw: Span, init: Option<DeclV>, cond: ExprV, incr: Option<ExprV>, body: StmtV) -> StmtV {
    let full_body = match incr {
        Some(i) => block_of(seq![decl_of_stmt(body), decl_of_expr(i)]),
        None => body,
    };
    let w = StmtV::While(between(kw, full_body.span()), cond, Box::new(full_body));
    match init {
        Some(d) => block_of(seq![d, decl_of_stmt(w)]),
        None => block_of(seq![decl_of_stmt(w)]),
    }
}

/// `forStmt := "for" "(" ( varDecl | exprStmt | ";" ) expression? ";" expression? ")" statement`
#[verifier::opaque]
pub open spec fn sp_for_statement(ts: Seq<TokV>, p: int) -> Parsed<StmtV>
    decreases ts.len() - p, 26int,
{
    match sp_expect(ts, p, TokenKindOf::For) {
        Parsed::Done(kw, _) => match sp_expect(ts, p + 1, TokenKindOf::LeftParen) {
            Parsed::Done(_, _) => match sp_for_init(ts, p + 2) {
                Parsed::Done(init, p3) => if !forward(ts, p + 2, p3) {
                    Parsed::Halted
                } else {
                    match sp_for_condition(ts, p3) {
                        Parsed::Done(cond, p4) => if !forward(ts, p3, p4) {
                            Parsed::Halted
                        } else {
                            match sp_for_increment(ts, p4) {
                                Parsed::Done(incr, p5) => if !forward(ts, p4, p5) {
                                    Parsed::Halted
                                } else {
                                    match sp_expect(ts, p5, TokenKindOf::RightParen) {
                                        Parsed::Done(_, _) => match sp_statement(ts, p5 + 1) {
                                            Parsed::Done(body, p7) => Parsed::Done(
                                                for_loop(kw, init, cond, incr, body),
                                                p7,
                                            ),
                                            other => fails(other),
                                        },
                                        other => fails(other),
                                    }
                                },
                                other => fails(other),
                            }
                        },
                        other => fails(other),
                    }
                },
                other => fails(other),
            },
            other => fails(other),
        },
        other => fails(other),
    }
}

/// `statement := printStmt | returnStmt | block | ifStmt | whileStmt | forStmt | exprStmt`
#[verifier::opaque]
pub open spec fn sp_statement(ts: Seq<TokV>, p: int) -> Parsed<StmtV>
    decreases ts.len() - p, 27int,
{
    match kind_at(ts, p) {
        Some(TokenKindOf::Print) => match sp_expression(ts, p + 1) {
            Parsed::Done(e, p2) => match sp_expect(ts, p2, TokenKindOf::Semicolon) {
                Parsed::Done(semi, p3) => Parsed::Done(StmtV::Print(between(ts[p].1, semi), e), p3),
                other => fails(other),
            },
            other => fails(other),
        },
        Some(TokenKindOf::Return) => sp_return_statement(ts, p),
        Some(TokenKindOf::LeftBrace) => sp_block_statement(ts, p),
        Some(TokenKindOf::If) => sp_if_statement(ts, p),
        Some(TokenKindOf::While) => sp_while_statement(ts, p),
        Some(TokenKindOf::For) => sp_for_statement(ts, p),
        _ => match sp_expression(ts, p) {
            Parsed::Done(e, p2) => match sp_expect(ts, p2, TokenKindOf::Semicolon) {
                Parsed::Done(semi, p3) => Parsed::Done(StmtV::Expression(between(e.span(), semi), e), p3),
                other => fails(other),
            },
            other => fails(other),
        },
    }
}

/// A statement as a declaration.
#[verifier::opaque]
pub open spec fn sp_statement_declaration(ts: Seq<TokV>, p: int) -> Parsed<DeclV>
    decreases ts.len() - p, 28int,
{
    match sp_statement(ts, p) {
        Parsed::Done(s, p2) => Parsed::Done(decl_of_stmt(s), p2),
        other => fails(other),
    }
}

/// `varDecl := "var" IDENTIFIER ( "=" expression )? ";"`
#[verifier::opaque]
pub open spec fn sp_var_declaration(ts: Seq<TokV>, p: int) -> Parsed<DeclV>
    decreases ts.len() - p, 26int,
{
    match sp_expect(ts, p, TokenKindOf::Var) {
        Parsed::Done(kw, _) => match sp_expect_identifier(ts, p + 1) {
            Parsed::Done(name, _) => if !(p + 2 < ts.len()) {
                Parsed::Failed(current_span(ts, p + 2), "unexpected end of input"@, p + 2)
            } else {
                match ts[p + 2].0 {
                    TokenKindOf::Equal => match sp_expression(ts, p + 3) {
                        Parsed::Done(e, p4) => match sp_expect(ts, p4, TokenKindOf::Semicolon) {
                            Parsed::Done(semi, p5) => Parsed::Done(DeclV::Var(between(kw, semi), name, Some(e)), p5),
                            other => fails(other),
                        },
                        other => fails(other),
                    },
                    TokenKindOf::Semicolon => Parsed::Done(DeclV::Var(between(kw, ts[p + 2].1), name, None), p + 3),
                    _ => Parsed::Failed(ts[p + 2].1, "expected '=' or ';' when parsing declaration"@, p + 3),
                }
            },
            other => fails(other),
        },
        other => fails(other),
    }
}

/// The parameter names of a function, from `q` on, after those in `acc`,
/// and the position after them.
pub open spec fn sp_params(ts: Seq<TokV>, q: int, acc: Seq<Span>) -> (Seq<Span>, int)
    decreases ts.len() - q,
{
    if 0 <= q < ts.len() && ts[q].0 is Identifier {
        if kind_at(ts, q + 1) == Some(SpecTokenKind::Comma) {
            sp_params(ts, q + 2, acc.push(ts[q].1))
        } else {
            (acc.push(ts[q].1), q + 1)
        }
    } else {
        (acc, q)
    }
}

/// `funDecl := "fun" IDENTIFIER "(" parameters? ")" block`
#[verifier::opaque]
pub open spec fn sp_fun_declaration(ts: Seq<TokV>, p: int) -> Parsed<DeclV>
    decreases ts.len() - p, 26int,
{
    match sp_expect(ts, p, TokenKindOf::Fun) {
        Parsed::Done(kw, _) => match sp_expect_identifier(ts, p + 1) {
            Parsed::Done(name, _) => match sp_expect(ts, p + 2, TokenKindOf::LeftParen) {
                Parsed::Done(_, _) => {
                    let (params, p4) = sp_params(ts, p + 3, Seq::empty());
                    if !forward(ts, p + 3, p4) {
                        Parsed::Halted
                    } else {
                        match sp_expect(ts, p4, TokenKindOf::RightParen) {
                            Parsed::Done(_, _) => match sp_block_statement(ts, p4 + 1) {
                                Parsed::Done(body, p6) => Parsed::Done(
                                    DeclV::Function(
                                        between(kw, body.span()),
                                        FunV { name, params, body: Box::new(body) },
                                    ),
                                    p6,
                                ),
                                other => fails(other),
                            },
                            other => fails(other),
                        }
                    }
                },
                other => fails(other),
            },
            other => fails(other),
        },
        other => fails(other),
    }
}

/// `declaration := varDecl | funDecl | statement`
#[verifier::opaque]
pub open spec fn sp_declaration(ts: Seq<TokV>, p: int) -> Parsed<DeclV>
    decreases ts.len() - p, 29int,
{
    match kind_at(ts, p) {
        Some(TokenKindOf::Var) => sp_var_declaration(ts, p),
        Some(TokenKindOf::Fun) => sp_fun_declaration(ts, p),
        _ => sp_statement_declaration(ts, p),
    }
}

/// A whole program from `p` on, after the declarations `ds` and the errors
/// `gs` already found: each declaration that parses is kept; after one that
/// does not, its error is kept and parsing resumes where `sp_synchronize`
/// says. `None` where a position would go backwards, which never happens
/// (`progress::lemma_program`).
#[verifier::opaque]
pub open spec fn sp_program(ts: Seq<TokV>, p: int, ds: Seq<DeclV>, gs: Seq<(Span, Seq<char>)>) -> Option<(Seq<DeclV>, Seq<(Span, Seq<char>)>)>
    decreases ts.len() - p,
{
    if p < 0 || p >= ts.len() {
        Some((ds, gs))
    } else {
        match sp_declaration(ts, p) {
            Parsed::Done(d, p2) => if !forward(ts, p + 1, p2) {
                None
            } else {
                sp_program(ts, p2, ds.push(d), gs)
            },
            Parsed::Failed(s, m, p2) => {
                let p3 = sp_synchronize(ts, p2);
                if !forward(ts, p + 1, p3) {
                    None
                } else {
                    sp_program(ts, p3, ds, gs.push((s, m)))
                }
            },
            Parsed::Halted => None,
        }
    }
}

} // verus!
