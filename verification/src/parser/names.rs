//! The names in what the parser builds cover whole chars of the source: the
//! parser takes each name from an identifier token, and each function body
//! it builds is a block.
use crate::parser::ast::{DeclV, ExprV, FunV, LogicalOp, StmtV};
use crate::parser::grammar::{
    between, block_of, decl_of_expr, decl_of_stmt, for_loop, forward, kind_at, op_at,
    operand_level, sp_arguments, sp_assignment, sp_binary, sp_binary_rest, sp_block_items,
    sp_block_statement, sp_call, sp_calls, sp_declaration, sp_expect, sp_expression,
    sp_finish_call, sp_for_condition, sp_for_increment, sp_for_init, sp_for_statement,
    sp_fun_declaration, sp_if_statement, sp_and_rest, sp_logic_and, sp_logic_or, sp_or_rest,
    sp_operand, sp_params,
    sp_primary, sp_program, sp_return_statement, sp_statement, sp_statement_declaration,
    sp_synchronize, sp_unary, sp_var_declaration, sp_while_statement, level_rank, Level, Parsed,
    TokV,
};
use crate::parser::span::Span;
use crate::parser::token::{SpecTokenKind, TokenKindOf};
use vstd::prelude::*;

verus! {

/// Every identifier token's span covers whole chars of `src`.
pub open spec fn idents_ok(ts: Seq<TokV>, src: Seq<char>) -> bool {
    forall|i: int| 0 <= i < ts.len() && (#[trigger] ts[i]).0 is Identifier ==> ts[i].1.valid_in(src)
}

pub open spec fn spans_ok(ps: Seq<Span>, src: Seq<char>) -> bool {
    forall|i: int| 0 <= i < ps.len() ==> (#[trigger] ps[i]).valid_in(src)
}

/// Every name in `e` covers whole chars of `src`.
pub open spec fn expr_names_ok(e: ExprV, src: Seq<char>) -> bool
    decreases e,
{
    match e {
        ExprV::Literal(_, _) => true,
        ExprV::Negate(_, x) => expr_names_ok(*x, src),
        ExprV::Not(_, x) => expr_names_ok(*x, src),
        ExprV::Binary(_, l, _, r) => expr_names_ok(*l, src) && expr_names_ok(*r, src),
        ExprV::Variable(_, n) => n.valid_in(src),
        ExprV::Assign(_, n, v) => n.valid_in(src) && expr_names_ok(*v, src),
        ExprV::Logical(_, l, _, r) => expr_names_ok(*l, src) && expr_names_ok(*r, src),
        ExprV::Call(_, c, args) => expr_names_ok(*c, src) && exprs_names_ok(args, src),
        ExprV::Get(_, o, _) => expr_names_ok(*o, src),
        ExprV::SetProperty(_, o, _, v) => expr_names_ok(*o, src) && expr_names_ok(*v, src),
        ExprV::This(_) => true,
        ExprV::Super(_, _) => true,
    }
}

pub open spec fn exprs_names_ok(es: Seq<ExprV>, src: Seq<char>) -> bool
    decreases es,
{
    if es.len() == 0 {
        true
    } else {
        exprs_names_ok(es.drop_last(), src) && expr_names_ok(es.last(), src)
    }
}

pub open spec fn stmt_names_ok(s: StmtV, src: Seq<char>) -> bool
    decreases s,
{
    match s {
        StmtV::Expression(_, e) => expr_names_ok(e, src),
        StmtV::Print(_, e) => expr_names_ok(e, src),
        StmtV::Return(_, x) => match x {
            Some(e) => expr_names_ok(e, src),
            None => true,
        },
        StmtV::Block(_, ds) => decls_names_ok(ds, src),
        StmtV::If(_, c, t, e) => expr_names_ok(c, src) && stmt_names_ok(*t, src) && match e {
            Some(b) => stmt_names_ok(*b, src),
            None => true,
        },
        StmtV::While(_, c, b) => expr_names_ok(c, src) && stmt_names_ok(*b, src),
    }
}

/// A function's names cover whole chars, and its body is a block.
pub open spec fn fun_names_ok(f: FunV, src: Seq<char>) -> bool
    decreases f,
{
    &&& f.name.valid_in(src)
    &&& spans_ok(f.params, src)
    &&& match *f.body {
        StmtV::Block(_, ds) => decls_names_ok(ds, src),
        _ => false,
    }
}

pub open spec fn methods_names_ok(ms: Seq<(Span, FunV)>, src: Seq<char>) -> bool
    decreases ms,
{
    if ms.len() == 0 {
        true
    } else {
        methods_names_ok(ms.drop_last(), src) && fun_names_ok(ms.last().1, src)
    }
}

pub open spec fn decl_names_ok(d: DeclV, src: Seq<char>) -> bool
    decreases d,
{
    match d {
        DeclV::Statement(_, s) => stmt_names_ok(s, src),
        DeclV::Var(_, n, init) => n.valid_in(src) && match init {
            Some(e) => expr_names_ok(e, src),
            None => true,
        },
        DeclV::Function(_, f) => fun_names_ok(f, src),
        DeclV::Class(_, n, sup, ms) => n.valid_in(src) && match sup {
            Some(e) => expr_names_ok(e, src),
            None => true,
        } && methods_names_ok(ms, src),
    }
}

pub open spec fn decls_names_ok(ds: Seq<DeclV>, src: Seq<char>) -> bool
    decreases ds,
{
    if ds.len() == 0 {
        true
    } else {
        decls_names_ok(ds.drop_last(), src) && decl_names_ok(ds.last(), src)
    }
}

pub open spec fn expr_done_ok(r: Parsed<ExprV>, src: Seq<char>) -> bool {
    r matches Parsed::Done(v, _) ==> expr_names_ok(v, src)
}

pub open spec fn stmt_done_ok(r: Parsed<StmtV>, src: Seq<char>) -> bool {
    r matches Parsed::Done(v, _) ==> stmt_names_ok(v, src)
}

pub open spec fn decl_done_ok(r: Parsed<DeclV>, src: Seq<char>) -> bool {
    r matches Parsed::Done(v, _) ==> decl_names_ok(v, src)
}

pub proof fn lemma_exprs_push(es: Seq<ExprV>, e: ExprV, src: Seq<char>)
    ensures
        exprs_names_ok(es.push(e), src) == (exprs_names_ok(es, src) && expr_names_ok(e, src)),
{
    assert(es.push(e).drop_last() =~= es);
}

pub proof fn lemma_decls_push(ds: Seq<DeclV>, d: DeclV, src: Seq<char>)
    ensures
        decls_names_ok(ds.push(d), src) == (decls_names_ok(ds, src) && decl_names_ok(d, src)),
{
    assert(ds.push(d).drop_last() =~= ds);
}

pub proof fn lemma_names_primary(ts: Seq<TokV>, p: int, src: Seq<char>)
    requires
        0 <= p <= ts.len(),
        idents_ok(ts, src),
    ensures
        expr_done_ok(sp_primary(ts, p), src),
    decreases ts.len() - p, 1int,
{
    reveal(sp_primary);
    reveal(sp_expression);
    if 0 <= p < ts.len() {
        if ts[p].0 is LeftParen {
            lemma_names_expression(ts, p + 1, src);
        } else if ts[p].0 is Identifier {
            assert(ts[p].1.valid_in(src));
        }
    }
}

pub proof fn lemma_names_finish_call(ts: Seq<TokV>, callee: ExprV, q: int, src: Seq<char>)
    requires
        0 <= q <= ts.len(),
        idents_ok(ts, src),
        expr_names_ok(callee, src),
    ensures
        expr_done_ok(sp_finish_call(ts, callee, q), src),
    decreases ts.len() - q, 2int,
{
    reveal(sp_finish_call);
    reveal(sp_arguments);
    if sp_expect(ts, q, SpecTokenKind::LeftParen) is Done {
        lemma_names_arguments(ts, q + 1, Seq::empty(), src);
    }
}

pub proof fn lemma_names_calls(ts: Seq<TokV>, callee: ExprV, q: int, src: Seq<char>)
    requires
        0 <= q <= ts.len(),
        idents_ok(ts, src),
        expr_names_ok(callee, src),
    ensures
        expr_done_ok(sp_calls(ts, callee, q), src),
    decreases ts.len() - q, 3int,
{
    reveal(sp_calls);
    reveal(sp_finish_call);
    if kind_at(ts, q) == Some(SpecTokenKind::LeftParen) {
        lemma_names_finish_call(ts, callee, q, src);
        match sp_finish_call(ts, callee, q) {
            Parsed::Done(e, p3) => {
                if forward(ts, q + 1, p3) {
                    lemma_names_calls(ts, e, p3, src);
                }
            },
            _ => {},
        }
    }
}

pub proof fn lemma_names_call(ts: Seq<TokV>, p: int, src: Seq<char>)
    requires
        0 <= p <= ts.len(),
        idents_ok(ts, src),
    ensures
        expr_done_ok(sp_call(ts, p), src),
    decreases ts.len() - p, 4int,
{
    reveal(sp_call);
    reveal(sp_primary);
    reveal(sp_calls);
    lemma_names_primary(ts, p, src);
    match sp_primary(ts, p) {
        Parsed::Done(e, p2) => {
            if forward(ts, p, p2) {
                lemma_names_calls(ts, e, p2, src);
            }
        },
        _ => {},
    }
}

pub proof fn lemma_names_unary(ts: Seq<TokV>, p: int, src: Seq<char>)
    requires
        0 <= p <= ts.len(),
        idents_ok(ts, src),
    ensures
        expr_done_ok(sp_unary(ts, p), src),
    decreases ts.len() - p, 10int,
{
    reveal(sp_unary);
    reveal(sp_call);
    if kind_at(ts, p) == Some(SpecTokenKind::Bang) || kind_at(ts, p) == Some(SpecTokenKind::Minus) {
        lemma_names_unary(ts, p + 1, src);
    } else {
        lemma_names_call(ts, p, src);
    }
}

pub proof fn lemma_names_operand(ts: Seq<TokV>, l: Level, p: int, src: Seq<char>)
    requires
        0 <= p <= ts.len(),
        idents_ok(ts, src),
    ensures
        expr_done_ok(sp_operand(ts, l, p), src),
    decreases ts.len() - p, 10 + 2 * level_rank(l),
{
    reveal(sp_operand);
    reveal(sp_unary);
    reveal(sp_binary);
    match l {
        Level::Factor => lemma_names_unary(ts, p, src),
        _ => lemma_names_binary(ts, operand_level(l), p, src),
    }
}

pub proof fn lemma_names_binary_rest(ts: Seq<TokV>, l: Level, left: ExprV, q: int, src: Seq<char>)
    requires
        0 <= q <= ts.len(),
        idents_ok(ts, src),
        expr_names_ok(left, src),
    ensures
        expr_done_ok(sp_binary_rest(ts, l, left, q), src),
    decreases ts.len() - q, 10 + 2 * level_rank(l),
{
    reveal(sp_binary_rest);
    reveal(sp_operand);
    match kind_at(ts, q) {
        Some(k) => match op_at(l, k) {
            Some(op) => {
                lemma_names_operand(ts, l, q + 1, src);
                match sp_operand(ts, l, q + 1) {
                    Parsed::Done(right, p3) => {
                        if forward(ts, q + 1, p3) {
                            lemma_names_binary_rest(
                                ts,
                                l,
                                ExprV::Binary(between(left.span(), right.span()), Box::new(left), op, Box::new(right)),
                                p3,
                                src,
                            );
                        }
                    },
                    _ => {},
                }
            },
            None => {},
        },
        None => {},
    }
}

pub proof fn lemma_names_binary(ts: Seq<TokV>, l: Level, p: int, src: Seq<char>)
    requires
        0 <= p <= ts.len(),
        idents_ok(ts, src),
    ensures
        expr_done_ok(sp_binary(ts, l, p), src),
    decreases ts.len() - p, 11 + 2 * level_rank(l),
{
    reveal(sp_binary);
    reveal(sp_operand);
    reveal(sp_binary_rest);
    lemma_names_operand(ts, l, p, src);
    match sp_operand(ts, l, p) {
        Parsed::Done(left, p2) => {
            if forward(ts, p, p2) {
                lemma_names_binary_rest(ts, l, left, p2, src);
            }
        },
        _ => {},
    }
}

pub proof fn lemma_names_and_rest(ts: Seq<TokV>, left: ExprV, q: int, src: Seq<char>)
    requires
        0 <= q <= ts.len(),
        idents_ok(ts, src),
        expr_names_ok(left, src),
    ensures
        expr_done_ok(sp_and_rest(ts, left, q), src),
    decreases ts.len() - q, 20int,
{
    reveal(sp_and_rest);
    reveal(sp_binary);
    if kind_at(ts, q) == Some(SpecTokenKind::And) {
        lemma_names_binary(ts, Level::Equality, q + 1, src);
        match sp_binary(ts, Level::Equality, q + 1) {
            Parsed::Done(right, p3) => {
                if forward(ts, q + 1, p3) {
                    lemma_names_and_rest(
                        ts,
                        ExprV::Logical(between(left.span(), right.span()), Box::new(left), LogicalOp::And, Box::new(right)),
                        p3,
                        src,
                    );
                }
            },
            _ => {},
        }
    }
}

pub proof fn lemma_names_logic_and(ts: Seq<TokV>, p: int, src: Seq<char>)
    requires
        0 <= p <= ts.len(),
        idents_ok(ts, src),
    ensures
        expr_done_ok(sp_logic_and(ts, p), src),
    decreases ts.len() - p, 21int,
{
    reveal(sp_logic_and);
    reveal(sp_binary);
    reveal(sp_and_rest);
    lemma_names_binary(ts, Level::Equality, p, src);
    match sp_binary(ts, Level::Equality, p) {
        Parsed::Done(left, p2) => {
            if forward(ts, p, p2) {
                lemma_names_and_rest(ts, left, p2, src);
            }
        },
        _ => {},
    }
}

pub proof fn lemma_names_or_rest(ts: Seq<TokV>, left: ExprV, q: int, src: Seq<char>)
    requires
        0 <= q <= ts.len(),
        idents_ok(ts, src),
        expr_names_ok(left, src),
    ensures
        expr_done_ok(sp_or_rest(ts, left, q), src),
    decreases ts.len() - q, 21int,
{
    reveal(sp_or_rest);
    reveal(sp_logic_and);
    if kind_at(ts, q) == Some(SpecTokenKind::Or) {
        lemma_names_logic_and(ts, q + 1, src);
        match sp_logic_and(ts, q + 1) {
            Parsed::Done(right, p3) => {
                if forward(ts, q + 1, p3) {
                    lemma_names_or_rest(
                        ts,
                        ExprV::Logical(between(left.span(), right.span()), Box::new(left), LogicalOp::Or, Box::new(right)),
                        p3,
                        src,
                    );
                }
            },
            _ => {},
        }
    }
}

pub proof fn lemma_names_logic_or(ts: Seq<TokV>, p: int, src: Seq<char>)
    requires
        0 <= p <= ts.len(),
        idents_ok(ts, src),
    ensures
        expr_done_ok(sp_logic_or(ts, p), src),
    decreases ts.len() - p, 22int,
{
    reveal(sp_logic_or);
    reveal(sp_logic_and);
    reveal(sp_or_rest);
    lemma_names_logic_and(ts, p, src);
    match sp_logic_and(ts, p) {
        Parsed::Done(left, p2) => {
            if forward(ts, p, p2) {
                lemma_names_or_rest(ts, left, p2, src);
            }
        },
        _ => {},
    }
}

pub proof fn lemma_names_assignment(ts: Seq<TokV>, p: int, src: Seq<char>)
    requires
        0 <= p <= ts.len(),
        idents_ok(ts, src),
    ensures
        expr_done_ok(sp_assignment(ts, p), src),
    decreases ts.len() - p, 23int,
{
    reveal(sp_assignment);
    reveal(sp_logic_or);
    lemma_names_logic_or(ts, p, src);
    match sp_logic_or(ts, p) {
        Parsed::Done(_, p2) => {
            if forward(ts, p, p2) && kind_at(ts, p2) == Some(SpecTokenKind::Equal) {
                lemma_names_assignment(ts, p2 + 1, src);
            }
        },
        _ => {},
    }
}

pub proof fn lemma_names_expression(ts: Seq<TokV>, p: int, src: Seq<char>)
    requires
        0 <= p <= ts.len(),
        idents_ok(ts, src),
    ensures
        expr_done_ok(sp_expression(ts, p), src),
    decreases ts.len() - p, 24int,
{
    reveal(sp_expression);
    reveal(sp_assignment);
    lemma_names_assignment(ts, p, src);
}

pub proof fn lemma_names_arguments(ts: Seq<TokV>, q: int, acc: Seq<ExprV>, src: Seq<char>)
    requires
        0 <= q <= ts.len(),
        idents_ok(ts, src),
        exprs_names_ok(acc, src),
    ensures
        sp_arguments(ts, q, acc) matches Parsed::Done(args, _) ==> exprs_names_ok(args, src),
    decreases ts.len() - q, 25int,
{
    reveal(sp_arguments);
    reveal(sp_expression);
    if kind_at(ts, q) != Some(SpecTokenKind::RightParen) {
        lemma_names_expression(ts, q, src);
        match sp_expression(ts, q) {
            Parsed::Done(e, p2) => {
                lemma_exprs_push(acc, e, src);
                if forward(ts, q, p2) && kind_at(ts, p2) == Some(SpecTokenKind::Comma) {
                    lemma_names_arguments(ts, p2 + 1, acc.push(e), src);
                }
            },
            _ => {},
        }
    }
}

pub proof fn lemma_names_return_statement(ts: Seq<TokV>, p: int, src: Seq<char>)
    requires
        0 <= p <= ts.len(),
        idents_ok(ts, src),
    ensures
        stmt_done_ok(sp_return_statement(ts, p), src),
    decreases ts.len() - p, 26int,
{
    reveal(sp_return_statement);
    if sp_expect(ts, p, SpecTokenKind::Return) is Done {
        lemma_names_expression(ts, p + 1, src);
    }
}

pub proof fn lemma_names_block_items(ts: Seq<TokV>, q: int, acc: Seq<DeclV>, src: Seq<char>)
    requires
        0 <= q <= ts.len(),
        idents_ok(ts, src),
        decls_names_ok(acc, src),
    ensures
        sp_block_items(ts, q, acc) matches Parsed::Done(ds, _) ==> decls_names_ok(ds, src),
    decreases ts.len() - q, 30int,
{
    reveal(sp_block_items);
    reveal(sp_declaration);
    if kind_at(ts, q) is Some && kind_at(ts, q) != Some(SpecTokenKind::RightBrace) {
        lemma_names_declaration(ts, q, src);
        match sp_declaration(ts, q) {
            Parsed::Done(d, p2) => {
                lemma_decls_push(acc, d, src);
                if forward(ts, q + 1, p2) {
                    lemma_names_block_items(ts, p2, acc.push(d), src);
                }
            },
            _ => {},
        }
    }
}

pub proof fn lemma_names_block_statement(ts: Seq<TokV>, p: int, src: Seq<char>)
    requires
        0 <= p <= ts.len(),
        idents_ok(ts, src),
    ensures
        stmt_done_ok(sp_block_statement(ts, p), src),
        sp_block_statement(ts, p) matches Parsed::Done(s, _) ==> s is Block,
    decreases ts.len() - p, 26int,
{
    reveal(sp_block_statement);
    reveal(sp_block_items);
    if sp_expect(ts, p, SpecTokenKind::LeftBrace) is Done {
        lemma_names_block_items(ts, p + 1, Seq::empty(), src);
    }
}

pub proof fn lemma_names_if_statement(ts: Seq<TokV>, p: int, src: Seq<char>)
    requires
        0 <= p <= ts.len(),
        idents_ok(ts, src),
    ensures
        stmt_done_ok(sp_if_statement(ts, p), src),
    decreases ts.len() - p, 26int,
{
    reveal(sp_if_statement);
    reveal(sp_statement);
    if sp_expect(ts, p, SpecTokenKind::If) is Done && sp_expect(ts, p + 1, SpecTokenKind::LeftParen) is Done {
        lemma_names_expression(ts, p + 2, src);
        match sp_expression(ts, p + 2) {
            Parsed::Done(_, p3) => {
                if forward(ts, p + 2, p3) && sp_expect(ts, p3, SpecTokenKind::RightParen) is Done {
                    lemma_names_statement(ts, p3 + 1, src);
                    match sp_statement(ts, p3 + 1) {
                        Parsed::Done(_, p5) => {
                            if forward(ts, p3 + 1, p5) && kind_at(ts, p5) == Some(SpecTokenKind::Else) {
                                lemma_names_statement(ts, p5 + 1, src);
                            }
                        },
                        _ => {},
                    }
                }
            },
            _ => {},
        }
    }
}

pub proof fn lemma_names_while_statement(ts: Seq<TokV>, p: int, src: Seq<char>)
    requires
        0 <= p <= ts.len(),
        idents_ok(ts, src),
    ensures
        stmt_done_ok(sp_while_statement(ts, p), src),
    decreases ts.len() - p, 26int,
{
    reveal(sp_while_statement);
    reveal(sp_statement);
    if sp_expect(ts, p, SpecTokenKind::While) is Done && sp_expect(ts, p + 1, SpecTokenKind::LeftParen) is Done {
        lemma_names_expression(ts, p + 2, src);
        match sp_expression(ts, p + 2) {
            Parsed::Done(_, p3) => {
                if forward(ts, p + 2, p3) && sp_expect(ts, p3, SpecTokenKind::RightParen) is Done {
                    lemma_names_statement(ts, p3 + 1, src);
                }
            },
            _ => {},
        }
    }
}

pub proof fn lemma_names_for_init(ts: Seq<TokV>, q: int, src: Seq<char>)
    requires
        0 <= q <= ts.len(),
        idents_ok(ts, src),
    ensures
        sp_for_init(ts, q) matches Parsed::Done(Some(d), _) ==> decl_names_ok(d, src),
    decreases ts.len() - q, 29int,
{
    reveal(sp_for_init);
    reveal(sp_statement_declaration);
    if kind_at(ts, q) == Some(SpecTokenKind::Var) {
        lemma_names_var_declaration(ts, q, src);
    } else if kind_at(ts, q) != Some(SpecTokenKind::Semicolon) {
        lemma_names_statement_declaration(ts, q, src);
    }
}

pub proof fn lemma_names_for_condition(ts: Seq<TokV>, q: int, src: Seq<char>)
    requires
        0 <= q <= ts.len(),
        idents_ok(ts, src),
    ensures
        expr_done_ok(sp_for_condition(ts, q), src),
    decreases ts.len() - q, 25int,
{
    reveal(sp_for_condition);
    if kind_at(ts, q) != Some(SpecTokenKind::Semicolon) {
        lemma_names_expression(ts, q, src);
    }
}

pub proof fn lemma_names_for_increment(ts: Seq<TokV>, q: int, src: Seq<char>)
    requires
        0 <= q <= ts.len(),
        idents_ok(ts, src),
    ensures
        sp_for_increment(ts, q) matches Parsed::Done(Some(e), _) ==> expr_names_ok(e, src),
    decreases ts.len() - q, 25int,
{
    reveal(sp_for_increment);
    if kind_at(ts, q) != Some(SpecTokenKind::RightParen) {
        lemma_names_expression(ts, q, src);
    }
}

/// The block that a `for` loop stands for keeps the names of its parts.
pub proof fn lemma_names_for_loop(kw: Span, init: Option<DeclV>, cond: ExprV, incr: Option<ExprV>, body: StmtV, src: Seq<char>)
    requires
        init matches Some(d) ==> decl_names_ok(d, src),
        expr_names_ok(cond, src),
        incr matches Some(i) ==> expr_names_ok(i, src),
        stmt_names_ok(body, src),
    ensures
        stmt_names_ok(for_loop(kw, init, cond, incr, body), src),
{
    let full_body = match incr {
        Some(i) => block_of(seq![decl_of_stmt(body), decl_of_expr(i)]),
        None => body,
    };
    match incr {
        Some(i) => {
            lemma_decls_push(seq![decl_of_stmt(body)], decl_of_expr(i), src);
            lemma_decls_push(Seq::empty(), decl_of_stmt(body), src);
            assert(seq![decl_of_stmt(body)].push(decl_of_expr(i)) =~= seq![decl_of_stmt(body), decl_of_expr(i)]);
            assert(Seq::<DeclV>::empty().push(decl_of_stmt(body)) =~= seq![decl_of_stmt(body)]);
        },
        None => {},
    }
    assert(stmt_names_ok(full_body, src));
    let w = StmtV::While(between(kw, full_body.span()), cond, Box::new(full_body));
    lemma_decls_push(Seq::empty(), decl_of_stmt(w), src);
    assert(Seq::<DeclV>::empty().push(decl_of_stmt(w)) =~= seq![decl_of_stmt(w)]);
    match init {
        Some(d) => {
            lemma_decls_push(seq![d], decl_of_stmt(w), src);
            lemma_decls_push(Seq::empty(), d, src);
            assert(seq![d].push(decl_of_stmt(w)) =~= seq![d, decl_of_stmt(w)]);
            assert(Seq::<DeclV>::empty().push(d) =~= seq![d]);
        },
        None => {},
    }
}

pub proof fn lemma_names_for_statement(ts: Seq<TokV>, p: int, src: Seq<char>)
    requires
        0 <= p <= ts.len(),
        idents_ok(ts, src),
    ensures
        stmt_done_ok(sp_for_statement(ts, p), src),
    decreases ts.len() - p, 26int,
{
    reveal(sp_for_statement);
    reveal(sp_for_init);
    reveal(sp_statement);
    if sp_expect(ts, p, SpecTokenKind::For) is Done && sp_expect(ts, p + 1, SpecTokenKind::LeftParen) is Done {
        lemma_names_for_init(ts, p + 2, src);
        match sp_for_init(ts, p + 2) {
            Parsed::Done(init, p3) => {
                if forward(ts, p + 2, p3) {
                    lemma_names_for_condition(ts, p3, src);
                    match sp_for_condition(ts, p3) {
                        Parsed::Done(cond, p4) => {
                            if forward(ts, p3, p4) {
                                lemma_names_for_increment(ts, p4, src);
                                match sp_for_increment(ts, p4) {
                                    Parsed::Done(incr, p5) => {
                                        if forward(ts, p4, p5) && sp_expect(ts, p5, SpecTokenKind::RightParen) is Done {
                                            lemma_names_statement(ts, p5 + 1, src);
                                            match sp_statement(ts, p5 + 1) {
                                                Parsed::Done(body, _) => {
                                                    let kw = sp_expect(ts, p, SpecTokenKind::For)->Done_0;
                                                    lemma_names_for_loop(kw, init, cond, incr, body, src);
                                                },
                                                _ => {},
                                            }
                                        }
                                    },
                                    _ => {},
                                }
                            }
                        },
                        _ => {},
                    }
                }
            },
            _ => {},
        }
    }
}

pub proof fn lemma_names_statement(ts: Seq<TokV>, p: int, src: Seq<char>)
    requires
        0 <= p <= ts.len(),
        idents_ok(ts, src),
    ensures
        stmt_done_ok(sp_statement(ts, p), src),
    decreases ts.len() - p, 27int,
{
    reveal(sp_statement);
    reveal(sp_block_statement);
    reveal(sp_if_statement);
    reveal(sp_while_statement);
    reveal(sp_for_statement);
    match kind_at(ts, p) {
        Some(TokenKindOf::Print) => lemma_names_expression(ts, p + 1, src),
        Some(TokenKindOf::Return) => lemma_names_return_statement(ts, p, src),
        Some(TokenKindOf::LeftBrace) => lemma_names_block_statement(ts, p, src),
        Some(TokenKindOf::If) => lemma_names_if_statement(ts, p, src),
        Some(TokenKindOf::While) => lemma_names_while_statement(ts, p, src),
        Some(TokenKindOf::For) => lemma_names_for_statement(ts, p, src),
        _ => lemma_names_expression(ts, p, src),
    }
}

pub proof fn lemma_names_statement_declaration(ts: Seq<TokV>, p: int, src: Seq<char>)
    requires
        0 <= p <= ts.len(),
        idents_ok(ts, src),
    ensures
        decl_done_ok(sp_statement_declaration(ts, p), src),
    decreases ts.len() - p, 28int,
{
    reveal(sp_statement_declaration);
    reveal(sp_statement);
    lemma_names_statement(ts, p, src);
}

pub proof fn lemma_names_var_declaration(ts: Seq<TokV>, p: int, src: Seq<char>)
    requires
        0 <= p <= ts.len(),
        idents_ok(ts, src),
    ensures
        decl_done_ok(sp_var_declaration(ts, p), src),
    decreases ts.len() - p, 26int,
{
    reveal(sp_var_declaration);
    if p + 1 < ts.len() && ts[p + 1].0 is Identifier {
        assert(ts[p + 1].1.valid_in(src));
    }
    if p + 2 < ts.len() && ts[p + 2].0 == SpecTokenKind::Equal {
        lemma_names_expression(ts, p + 3, src);
    }
}

pub proof fn lemma_names_params(ts: Seq<TokV>, q: int, acc: Seq<Span>, src: Seq<char>)
    requires
        idents_ok(ts, src),
        spans_ok(acc, src),
    ensures
        spans_ok(sp_params(ts, q, acc).0, src),
    decreases ts.len() - q,
{
    if 0 <= q < ts.len() && ts[q].0 is Identifier {
        assert(ts[q].1.valid_in(src));
        assert(spans_ok(acc.push(ts[q].1), src));
        if kind_at(ts, q + 1) == Some(SpecTokenKind::Comma) {
            lemma_names_params(ts, q + 2, acc.push(ts[q].1), src);
        }
    }
}

pub proof fn lemma_names_fun_declaration(ts: Seq<TokV>, p: int, src: Seq<char>)
    requires
        0 <= p <= ts.len(),
        idents_ok(ts, src),
    ensures
        decl_done_ok(sp_fun_declaration(ts, p), src),
    decreases ts.len() - p, 26int,
{
    reveal(sp_fun_declaration);
    reveal(sp_block_statement);
    if p + 1 < ts.len() && ts[p + 1].0 is Identifier {
        assert(ts[p + 1].1.valid_in(src));
    }
    lemma_names_params(ts, p + 3, Seq::empty(), src);
    let (_, p4) = sp_params(ts, p + 3, Seq::empty());
    if forward(ts, p + 3, p4) && sp_expect(ts, p4, SpecTokenKind::RightParen) is Done {
        lemma_names_block_statement(ts, p4 + 1, src);
    }
}

pub proof fn lemma_names_declaration(ts: Seq<TokV>, p: int, src: Seq<char>)
    requires
        0 <= p <= ts.len(),
        idents_ok(ts, src),
    ensures
        decl_done_ok(sp_declaration(ts, p), src),
    decreases ts.len() - p, 29int,
{
    reveal(sp_declaration);
    reveal(sp_fun_declaration);
    reveal(sp_statement_declaration);
    match kind_at(ts, p) {
        Some(TokenKindOf::Var) => lemma_names_var_declaration(ts, p, src),
        Some(TokenKindOf::Fun) => lemma_names_fun_declaration(ts, p, src),
        _ => lemma_names_statement_declaration(ts, p, src),
    }
}

/// The declarations of a program that parses keep their names inside the
/// source.
pub proof fn lemma_names_program(ts: Seq<TokV>, p: int, ds: Seq<DeclV>, gs: Seq<(Span, Seq<char>)>, src: Seq<char>)
    requires
        0 <= p,
        idents_ok(ts, src),
        decls_names_ok(ds, src),
    ensures
        sp_program(ts, p, ds, gs) matches Some(r) ==> decls_names_ok(r.0, src),
    decreases ts.len() - p,
{
    reveal(sp_program);
    if p < ts.len() {
        lemma_names_declaration(ts, p, src);
        match sp_declaration(ts, p) {
            Parsed::Done(d, p2) => {
                lemma_decls_push(ds, d, src);
                if forward(ts, p + 1, p2) {
                    lemma_names_program(ts, p2, ds.push(d), gs, src);
                }
            },
            Parsed::Failed(s, m, p2) => {
                let p3 = sp_synchronize(ts, p2);
                if forward(ts, p + 1, p3) {
                    lemma_names_program(ts, p3, ds, gs.push((s, m)), src);
                }
            },
            Parsed::Halted => {},
        }
    }
}

} // verus!
