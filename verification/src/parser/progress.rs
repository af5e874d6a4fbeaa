//! The parser always moves forward: a parsing routine started on a token
//! consumes it, and no routine stops past the end of the tokens. So the
//! grammar's checks that a position moved forward always pass, and parsing
//! never halts.
use crate::parser::ast::{DeclV, ExprV, LogicalOp};
use crate::parser::grammar::{
    forward, kind_at, operand_level, op_at, sp_arguments, sp_assignment, sp_binary,
    sp_binary_rest, sp_block_items, sp_block_statement, sp_call, sp_calls, sp_declaration,
    sp_expect, sp_expression, sp_finish_call, sp_for_condition, sp_for_increment, sp_for_init,
    sp_for_statement, sp_fun_declaration, sp_if_statement, sp_and_rest, sp_logic_and,
    sp_logic_or, sp_or_rest,
    sp_operand, sp_params, sp_primary, sp_return_statement, sp_statement,
    sp_statement_declaration, sp_synchronize, sp_program, sp_unary, sp_var_declaration, sp_while_statement, Level, Parsed,
    TokV, level_rank,
};
use crate::parser::span::Span;
use crate::parser::token::{SpecTokenKind, TokenKindOf};
use vstd::prelude::*;

verus! {

/// `r`, from a routine started at `p`, stops after `p` when there was a
/// token at `p`, and never past the end of the tokens.
pub open spec fn moves_on<T>(ts: Seq<TokV>, p: int, r: Parsed<T>) -> bool {
    match r {
        Parsed::Done(_, q) => p < q <= ts.len(),
        Parsed::Failed(_, _, q) => p <= q <= ts.len() && (p < ts.len() ==> p < q),
        Parsed::Halted => false,
    }
}

/// `r`, from a routine started at `p`, stops at or after `p` and never past
/// the end of the tokens.
pub open spec fn stays_on<T>(ts: Seq<TokV>, p: int, r: Parsed<T>) -> bool {
    match r {
        Parsed::Done(_, q) => p <= q <= ts.len(),
        Parsed::Failed(_, _, q) => p <= q <= ts.len(),
        Parsed::Halted => false,
    }
}

pub proof fn lemma_primary(ts: Seq<TokV>, p: int)
    requires
        0 <= p <= ts.len(),
    ensures
        moves_on(ts, p, sp_primary(ts, p)),
    decreases ts.len() - p, 1int,
{
    reveal(sp_primary);
    reveal(sp_expression);
    if 0 <= p < ts.len() && ts[p].0 is LeftParen {
        lemma_expression(ts, p + 1);
    }
}

pub proof fn lemma_finish_call(ts: Seq<TokV>, callee: ExprV, q: int)
    requires
        0 <= q <= ts.len(),
    ensures
        moves_on(ts, q, sp_finish_call(ts, callee, q)),
    decreases ts.len() - q, 2int,
{
    reveal(sp_finish_call);
    reveal(sp_arguments);
    if sp_expect(ts, q, SpecTokenKind::LeftParen) is Done {
        lemma_arguments(ts, q + 1, Seq::empty());
    }
}

pub proof fn lemma_calls(ts: Seq<TokV>, callee: ExprV, q: int)
    requires
        0 <= q <= ts.len(),
    ensures
        stays_on(ts, q, sp_calls(ts, callee, q)),
    decreases ts.len() - q, 3int,
{
    reveal(sp_calls);
    reveal(sp_finish_call);
    if kind_at(ts, q) == Some(SpecTokenKind::LeftParen) {
        lemma_finish_call(ts, callee, q);
        match sp_finish_call(ts, callee, q) {
            Parsed::Done(e, p3) => {
                if forward(ts, q + 1, p3) {
                    lemma_calls(ts, e, p3);
                }
            },
            _ => {},
        }
    }
}

pub proof fn lemma_call(ts: Seq<TokV>, p: int)
    requires
        0 <= p <= ts.len(),
    ensures
        moves_on(ts, p, sp_call(ts, p)),
    decreases ts.len() - p, 4int,
{
    reveal(sp_call);
    reveal(sp_primary);
    reveal(sp_calls);
    lemma_primary(ts, p);
    match sp_primary(ts, p) {
        Parsed::Done(e, p2) => {
            if forward(ts, p, p2) {
                lemma_calls(ts, e, p2);
            }
        },
        _ => {},
    }
}

pub proof fn lemma_unary(ts: Seq<TokV>, p: int)
    requires
        0 <= p <= ts.len(),
    ensures
        moves_on(ts, p, sp_unary(ts, p)),
    decreases ts.len() - p, 10int,
{
    reveal(sp_unary);
    reveal(sp_call);
    if kind_at(ts, p) == Some(SpecTokenKind::Bang) || kind_at(ts, p) == Some(SpecTokenKind::Minus) {
        lemma_unary(ts, p + 1);
    } else {
        lemma_call(ts, p);
    }
}

pub proof fn lemma_operand(ts: Seq<TokV>, l: Level, p: int)
    requires
        0 <= p <= ts.len(),
    ensures
        moves_on(ts, p, sp_operand(ts, l, p)),
    decreases ts.len() - p, 10 + 2 * level_rank(l),
{
    reveal(sp_operand);
    reveal(sp_unary);
    reveal(sp_binary);
    match l {
        Level::Factor => lemma_unary(ts, p),
        _ => lemma_binary(ts, operand_level(l), p),
    }
}

pub proof fn lemma_binary_rest(ts: Seq<TokV>, l: Level, left: ExprV, q: int)
    requires
        0 <= q <= ts.len(),
    ensures
        stays_on(ts, q, sp_binary_rest(ts, l, left, q)),
    decreases ts.len() - q, 10 + 2 * level_rank(l),
{
    reveal(sp_binary_rest);
    reveal(sp_operand);
    match kind_at(ts, q) {
        Some(k) => match op_at(l, k) {
            Some(op) => {
                lemma_operand(ts, l, q + 1);
                match sp_operand(ts, l, q + 1) {
                    Parsed::Done(right, p3) => {
                        if forward(ts, q + 1, p3) {
                            lemma_binary_rest(
                                ts,
                                l,
                                ExprV::Binary(
                                    crate::parser::grammar::between(left.span(), right.span()),
                                    Box::new(left),
                                    op,
                                    Box::new(right),
                                ),
                                p3,
                            );
                        }
                    },
                    _ => {},
                }
            },
            None => {},
        },
        None => {},
    }
}

pub proof fn lemma_binary(ts: Seq<TokV>, l: Level, p: int)
    requires
        0 <= p <= ts.len(),
    ensures
        moves_on(ts, p, sp_binary(ts, l, p)),
    decreases ts.len() - p, 11 + 2 * level_rank(l),
{
    reveal(sp_binary);
    reveal(sp_operand);
    reveal(sp_binary_rest);
    lemma_operand(ts, l, p);
    match sp_operand(ts, l, p) {
        Parsed::Done(left, p2) => {
            if forward(ts, p, p2) {
                lemma_binary_rest(ts, l, left, p2);
            }
        },
        _ => {},
    }
}

pub proof fn lemma_and_rest(ts: Seq<TokV>, left: ExprV, q: int)
    requires
        0 <= q <= ts.len(),
    ensures
        stays_on(ts, q, sp_and_rest(ts, left, q)),
    decreases ts.len() - q, 20int,
{
    reveal(sp_and_rest);
    reveal(sp_binary);
    if kind_at(ts, q) == Some(SpecTokenKind::And) {
        lemma_binary(ts, Level::Equality, q + 1);
        match sp_binary(ts, Level::Equality, q + 1) {
            Parsed::Done(right, p3) => {
                if forward(ts, q + 1, p3) {
                    lemma_and_rest(
                        ts,
                        ExprV::Logical(
                            crate::parser::grammar::between(left.span(), right.span()),
                            Box::new(left),
                            LogicalOp::And,
                            Box::new(right),
                        ),
                        p3,
                    );
                }
            },
            _ => {},
        }
    }
}

pub proof fn lemma_logic_and(ts: Seq<TokV>, p: int)
    requires
        0 <= p <= ts.len(),
    ensures
        moves_on(ts, p, sp_logic_and(ts, p)),
    decreases ts.len() - p, 21int,
{
    reveal(sp_logic_and);
    reveal(sp_binary);
    reveal(sp_and_rest);
    lemma_binary(ts, Level::Equality, p);
    match sp_binary(ts, Level::Equality, p) {
        Parsed::Done(left, p2) => {
            if forward(ts, p, p2) {
                lemma_and_rest(ts, left, p2);
            }
        },
        _ => {},
    }
}

pub proof fn lemma_or_rest(ts: Seq<TokV>, left: ExprV, q: int)
    requires
        0 <= q <= ts.len(),
    ensures
        stays_on(ts, q, sp_or_rest(ts, left, q)),
    decreases ts.len() - q, 21int,
{
    reveal(sp_or_rest);
    reveal(sp_logic_and);
    if kind_at(ts, q) == Some(SpecTokenKind::Or) {
        lemma_logic_and(ts, q + 1);
        match sp_logic_and(ts, q + 1) {
            Parsed::Done(right, p3) => {
                if forward(ts, q + 1, p3) {
                    lemma_or_rest(
                        ts,
                        ExprV::Logical(
                            crate::parser::grammar::between(left.span(), right.span()),
                            Box::new(left),
                            LogicalOp::Or,
                            Box::new(right),
                        ),
                        p3,
                    );
                }
            },
            _ => {},
        }
    }
}

pub proof fn lemma_logic_or(ts: Seq<TokV>, p: int)
    requires
        0 <= p <= ts.len(),
    ensures
        moves_on(ts, p, sp_logic_or(ts, p)),
    decreases ts.len() - p, 22int,
{
    reveal(sp_logic_or);
    reveal(sp_logic_and);
    reveal(sp_or_rest);
    lemma_logic_and(ts, p);
    match sp_logic_and(ts, p) {
        Parsed::Done(left, p2) => {
            if forward(ts, p, p2) {
                lemma_or_rest(ts, left, p2);
            }
        },
        _ => {},
    }
}

pub proof fn lemma_assignment(ts: Seq<TokV>, p: int)
    requires
        0 <= p <= ts.len(),
    ensures
        moves_on(ts, p, sp_assignment(ts, p)),
    decreases ts.len() - p, 23int,
{
    reveal(sp_assignment);
    reveal(sp_logic_or);
    lemma_logic_or(ts, p);
    match sp_logic_or(ts, p) {
        Parsed::Done(_, p2) => {
            if forward(ts, p, p2) && kind_at(ts, p2) == Some(SpecTokenKind::Equal) {
                lemma_assignment(ts, p2 + 1);
            }
        },
        _ => {},
    }
}

pub proof fn lemma_expression(ts: Seq<TokV>, p: int)
    requires
        0 <= p <= ts.len(),
    ensures
        moves_on(ts, p, sp_expression(ts, p)),
    decreases ts.len() - p, 24int,
{
    reveal(sp_expression);
    reveal(sp_assignment);
    lemma_assignment(ts, p);
}

pub proof fn lemma_arguments(ts: Seq<TokV>, q: int, acc: Seq<ExprV>)
    requires
        0 <= q <= ts.len(),
    ensures
        stays_on(ts, q, sp_arguments(ts, q, acc)),
    decreases ts.len() - q, 25int,
{
    reveal(sp_arguments);
    reveal(sp_expression);
    if kind_at(ts, q) != Some(SpecTokenKind::RightParen) {
        lemma_expression(ts, q);
        match sp_expression(ts, q) {
            Parsed::Done(e, p2) => {
                if forward(ts, q, p2) && kind_at(ts, p2) == Some(SpecTokenKind::Comma) {
                    lemma_arguments(ts, p2 + 1, acc.push(e));
                }
            },
            _ => {},
        }
    }
}

pub proof fn lemma_return_statement(ts: Seq<TokV>, p: int)
    requires
        0 <= p <= ts.len(),
    ensures
        moves_on(ts, p, sp_return_statement(ts, p)),
    decreases ts.len() - p, 26int,
{
    reveal(sp_return_statement);
    if sp_expect(ts, p, SpecTokenKind::Return) is Done {
        lemma_expression(ts, p + 1);
    }
}

pub proof fn lemma_block_items(ts: Seq<TokV>, q: int, acc: Seq<DeclV>)
    requires
        0 <= q <= ts.len(),
    ensures
        stays_on(ts, q, sp_block_items(ts, q, acc)),
    decreases ts.len() - q, 30int,
{
    reveal(sp_block_items);
    reveal(sp_declaration);
    if kind_at(ts, q) is Some && kind_at(ts, q) != Some(SpecTokenKind::RightBrace) {
        lemma_declaration(ts, q);
        match sp_declaration(ts, q) {
            Parsed::Done(d, p2) => {
                if forward(ts, q + 1, p2) {
                    lemma_block_items(ts, p2, acc.push(d));
                }
            },
            _ => {},
        }
    }
}

pub proof fn lemma_block_statement(ts: Seq<TokV>, p: int)
    requires
        0 <= p <= ts.len(),
    ensures
        moves_on(ts, p, sp_block_statement(ts, p)),
    decreases ts.len() - p, 26int,
{
    reveal(sp_block_statement);
    reveal(sp_block_items);
    if sp_expect(ts, p, SpecTokenKind::LeftBrace) is Done {
        lemma_block_items(ts, p + 1, Seq::empty());
    }
}

pub proof fn lemma_if_statement(ts: Seq<TokV>, p: int)
    requires
        0 <= p <= ts.len(),
    ensures
        moves_on(ts, p, sp_if_statement(ts, p)),
    decreases ts.len() - p, 26int,
{
    reveal(sp_if_statement);
    reveal(sp_statement);
    if sp_expect(ts, p, SpecTokenKind::If) is Done && sp_expect(ts, p + 1, SpecTokenKind::LeftParen) is Done {
        lemma_expression(ts, p + 2);
        match sp_expression(ts, p + 2) {
            Parsed::Done(_, p3) => {
                if forward(ts, p + 2, p3) && sp_expect(ts, p3, SpecTokenKind::RightParen) is Done {
                    lemma_statement(ts, p3 + 1);
                    match sp_statement(ts, p3 + 1) {
                        Parsed::Done(_, p5) => {
                            if forward(ts, p3 + 1, p5) && kind_at(ts, p5) == Some(SpecTokenKind::Else) {
                                lemma_statement(ts, p5 + 1);
                            }
                        },
                        _ => {},
                    }
                }
            },
            _ => {},
        }
    }
}

pub proof fn lemma_while_statement(ts: Seq<TokV>, p: int)
    requires
        0 <= p <= ts.len(),
    ensures
        moves_on(ts, p, sp_while_statement(ts, p)),
    decreases ts.len() - p, 26int,
{
    reveal(sp_while_statement);
    reveal(sp_statement);
    if sp_expect(ts, p, SpecTokenKind::While) is Done && sp_expect(ts, p + 1, SpecTokenKind::LeftParen) is Done {
        lemma_expression(ts, p + 2);
        match sp_expression(ts, p + 2) {
            Parsed::Done(_, p3) => {
                if forward(ts, p + 2, p3) && sp_expect(ts, p3, SpecTokenKind::RightParen) is Done {
                    lemma_statement(ts, p3 + 1);
                }
            },
            _ => {},
        }
    }
}

pub proof fn lemma_for_init(ts: Seq<TokV>, q: int)
    requires
        0 <= q <= ts.len(),
    ensures
        moves_on(ts, q, sp_for_init(ts, q)),
    decreases ts.len() - q, 29int,
{
    reveal(sp_for_init);
    reveal(sp_statement_declaration);
    if kind_at(ts, q) == Some(SpecTokenKind::Var) {
        lemma_var_declaration(ts, q);
    } else if kind_at(ts, q) != Some(SpecTokenKind::Semicolon) {
        lemma_statement_declaration(ts, q);
    }
}

pub proof fn lemma_for_condition(ts: Seq<TokV>, q: int)
    requires
        0 <= q <= ts.len(),
    ensures
        moves_on(ts, q, sp_for_condition(ts, q)),
    decreases ts.len() - q, 25int,
{
    reveal(sp_for_condition);
    if kind_at(ts, q) != Some(SpecTokenKind::Semicolon) {
        lemma_expression(ts, q);
    }
}

pub proof fn lemma_for_increment(ts: Seq<TokV>, q: int)
    requires
        0 <= q <= ts.len(),
    ensures
        stays_on(ts, q, sp_for_increment(ts, q)),
    decreases ts.len() - q, 25int,
{
    reveal(sp_for_increment);
    if kind_at(ts, q) != Some(SpecTokenKind::RightParen) {
        lemma_expression(ts, q);
    }
}

pub proof fn lemma_for_statement(ts: Seq<TokV>, p: int)
    requires
        0 <= p <= ts.len(),
    ensures
        moves_on(ts, p, sp_for_statement(ts, p)),
    decreases ts.len() - p, 26int,
{
    reveal(sp_for_statement);
    reveal(sp_for_init);
    reveal(sp_statement);
    if sp_expect(ts, p, SpecTokenKind::For) is Done && sp_expect(ts, p + 1, SpecTokenKind::LeftParen) is Done {
        lemma_for_init(ts, p + 2);
        match sp_for_init(ts, p + 2) {
            Parsed::Done(_, p3) => {
                if forward(ts, p + 2, p3) {
                    lemma_for_condition(ts, p3);
                    match sp_for_condition(ts, p3) {
                        Parsed::Done(_, p4) => {
                            if forward(ts, p3, p4) {
                                lemma_for_increment(ts, p4);
                                match sp_for_increment(ts, p4) {
                                    Parsed::Done(_, p5) => {
                                        if forward(ts, p4, p5) && sp_expect(
                                            ts,
                                            p5,
                                            SpecTokenKind::RightParen,
                                        ) is Done {
                                            lemma_statement(ts, p5 + 1);
                                        }
                                    },
                                    _ => {},
                                }
                            }
                        },
                        _ => {},
                    }
                }
            },
            _ => {},
        }
    }
}

pub proof fn lemma_statement(ts: Seq<TokV>, p: int)
    requires
        0 <= p <= ts.len(),
    ensures
        moves_on(ts, p, sp_statement(ts, p)),
    decreases ts.len() - p, 27int,
{
    reveal(sp_statement);
    reveal(sp_block_statement);
    reveal(sp_if_statement);
    reveal(sp_while_statement);
    reveal(sp_for_statement);
    match kind_at(ts, p) {
        Some(TokenKindOf::Print) => lemma_expression(ts, p + 1),
        Some(TokenKindOf::Return) => lemma_return_statement(ts, p),
        Some(TokenKindOf::LeftBrace) => lemma_block_statement(ts, p),
        Some(TokenKindOf::If) => lemma_if_statement(ts, p),
        Some(TokenKindOf::While) => lemma_while_statement(ts, p),
        Some(TokenKindOf::For) => lemma_for_statement(ts, p),
        _ => lemma_expression(ts, p),
    }
}

pub proof fn lemma_statement_declaration(ts: Seq<TokV>, p: int)
    requires
        0 <= p <= ts.len(),
    ensures
        moves_on(ts, p, sp_statement_declaration(ts, p)),
    decreases ts.len() - p, 28int,
{
    reveal(sp_statement_declaration);
    reveal(sp_statement);
    lemma_statement(ts, p);
}

pub proof fn lemma_var_declaration(ts: Seq<TokV>, p: int)
    requires
        0 <= p <= ts.len(),
    ensures
        moves_on(ts, p, sp_var_declaration(ts, p)),
    decreases ts.len() - p, 26int,
{
    reveal(sp_var_declaration);
    if p + 2 < ts.len() && ts[p + 2].0 == SpecTokenKind::Equal {
        lemma_expression(ts, p + 3);
    }
}

/// The parameter list stops at or after where it starts, within the tokens.
pub proof fn lemma_params(ts: Seq<TokV>, q: int, acc: Seq<crate::parser::span::Span>)
    requires
        0 <= q <= ts.len(),
    ensures
        q <= sp_params(ts, q, acc).1 <= ts.len(),
    decreases ts.len() - q,
{
    if 0 <= q < ts.len() && ts[q].0 is Identifier && kind_at(ts, q + 1) == Some(SpecTokenKind::Comma) {
        lemma_params(ts, q + 2, acc.push(ts[q].1));
    }
}

pub proof fn lemma_fun_declaration(ts: Seq<TokV>, p: int)
    requires
        0 <= p <= ts.len(),
    ensures
        moves_on(ts, p, sp_fun_declaration(ts, p)),
    decreases ts.len() - p, 26int,
{
    reveal(sp_fun_declaration);
    reveal(sp_block_statement);
    if sp_expect(ts, p, SpecTokenKind::Fun) is Done && p + 3 <= ts.len() {
        lemma_params(ts, p + 3, Seq::empty());
        let (_, p4) = sp_params(ts, p + 3, Seq::empty());
        if forward(ts, p + 3, p4) && sp_expect(ts, p4, SpecTokenKind::RightParen) is Done {
            lemma_block_statement(ts, p4 + 1);
        }
    }
}

pub proof fn lemma_declaration(ts: Seq<TokV>, p: int)
    requires
        0 <= p <= ts.len(),
    ensures
        moves_on(ts, p, sp_declaration(ts, p)),
    decreases ts.len() - p, 29int,
{
    reveal(sp_declaration);
    reveal(sp_fun_declaration);
    reveal(sp_statement_declaration);
    match kind_at(ts, p) {
        Some(TokenKindOf::Var) => lemma_var_declaration(ts, p),
        Some(TokenKindOf::Fun) => lemma_fun_declaration(ts, p),
        _ => lemma_statement_declaration(ts, p),
    }
}

/// Skipping after an error stops at or after where it starts, within the
/// tokens.
pub proof fn lemma_synchronize(ts: Seq<TokV>, p: int)
    requires
        0 <= p <= ts.len(),
    ensures
        p <= sp_synchronize(ts, p) <= ts.len(),
    decreases ts.len() - p,
{
    if p < ts.len() {
        lemma_synchronize(ts, p + 1);
    }
}

/// Parsing a program from `p` comes to its end: it never halts.
pub proof fn lemma_program(ts: Seq<TokV>, p: int, ds: Seq<DeclV>, gs: Seq<(Span, Seq<char>)>)
    requires
        0 <= p <= ts.len(),
    ensures
        sp_program(ts, p, ds, gs) is Some,
    decreases ts.len() - p,
{
    reveal(sp_program);
    if p < ts.len() {
        lemma_declaration(ts, p);
        match sp_declaration(ts, p) {
            Parsed::Done(d, p2) => {
                assert(forward(ts, p + 1, p2));
                lemma_program(ts, p2, ds.push(d), gs);
            },
            Parsed::Failed(sp, m, p2) => {
                lemma_synchronize(ts, p2);
                let p3 = sp_synchronize(ts, p2);
                assert(forward(ts, p + 1, p3));
                lemma_program(ts, p3, ds, gs.push((sp, m)));
            },
            Parsed::Halted => {},
        }
    }
}

/// Parsing always moves on: an expression, a statement or a declaration
/// parsed from a token consumes it, and parsing never stops past the last
/// token.
pub proof fn law_parsing_moves_on(ts: Seq<TokV>, p: int)
    requires
        0 <= p <= ts.len(),
    ensures
        moves_on(ts, p, sp_expression(ts, p)),
        moves_on(ts, p, sp_statement(ts, p)),
        moves_on(ts, p, sp_declaration(ts, p)),
{
    lemma_expression(ts, p);
    lemma_statement(ts, p);
    lemma_declaration(ts, p);
}

} // verus!
