//! Parsing of statements, declarations and whole programs.
use crate::parser::ast::{
    decl_ids, decl_v, decls_ids, decls_v, expr_ids, expr_v, exprs_ids, opt_expr_ids, stmt_ids,
    lemma_decls_ids_push, lemma_decl_v_span, lemma_decls_v, lemma_decls_v_push,
    lemma_expr_v_span, lemma_stmt_v_span, stmt_v, Declaration, DeclarationKind, DeclV, ExprV,
    Expression, ExpressionKind, Function, If, Literal, Statement, StatementKind, StmtV, Var,
    While,
};
use crate::parser::diagnostic::Diagnostic;
use crate::parser::grammar::{
    block_of, current_span, decl_of_expr, sp_expect, decl_of_stmt, for_loop, kind_at, sp_block_items,
    sp_block_statement, sp_declaration, sp_expression, sp_for_condition, sp_for_increment,
    sp_for_init, sp_for_statement, sp_fun_declaration, sp_if_statement, sp_params,
    sp_return_statement, sp_statement, sp_statement_declaration, sp_var_declaration,
    sp_while_statement, sp_program, Parsed,
};
use crate::parser::node::{
    id_space, id_window, lemma_empty_ids, lemma_leaf_ids, lemma_node_ids, lemma_node_ids2,
    lemma_window_join, lemma_window_widen, Node, NodeIds, Span,
};
use crate::parser::{fresh_expr, fresh_ids};
use vstd::multiset::Multiset;
use crate::parser::token::{SpecTokenKind, TokenKindOf};
use crate::parser::{error_is, outcome_is, Parser};
use vstd::prelude::*;

verus! {

pub open spec fn stmt_outcome(r: Result<Statement, Diagnostic>, pos: int, s: Parsed<StmtV>) -> bool {
    outcome_is(r, |x: Statement| stmt_v(x), pos, s)
}

pub open spec fn decl_outcome(r: Result<Declaration, Diagnostic>, pos: int, s: Parsed<DeclV>) -> bool {
    outcome_is(r, |x: Declaration| decl_v(x), pos, s)
}

pub open spec fn opt_decl_v(d: Option<Declaration>) -> Option<DeclV> {
    match d {
        Some(x) => Some(decl_v(x)),
        None => None,
    }
}

pub open spec fn opt_expr_view(e: Option<Expression>) -> Option<ExprV> {
    match e {
        Some(x) => Some(expr_v(x)),
        None => None,
    }
}

pub type ParseStatementResult = Result<Statement, Diagnostic>;

/// A statement that `r` holds has node ids handed out while the count of
/// issued ids went from `lo` to `hi`.
pub open spec fn fresh_stmt(r: Result<Statement, Diagnostic>, lo: nat, hi: nat) -> bool {
    r matches Ok(s) ==> fresh_ids(stmt_ids(s), lo, hi)
}

/// The ids of the nodes of an `else` branch, if any.
pub open spec fn else_ids(e: Option<Box<Statement>>) -> Multiset<u64> {
    match e {
        Some(x) => stmt_ids(*x),
        None => Multiset::empty(),
    }
}

/// The ids of a `for` loop's body followed by its increment: the body's
/// and the increment's ids, then those of the three nodes made at counts
/// `b1` to `b1 + 2` to hold them.
proof fn lemma_for_body_ids(body: Multiset<u64>, inc: Multiset<u64>, n0: nat, n1: nat, b0: nat, b1: nat)
    requires
        n0 <= n1 <= b0 <= b1,
        inc.subset_of(id_window(n0, n1)),
        body.subset_of(id_window(b0, b1)),
    ensures
        Multiset::<u64>::empty().add(body.insert((b1 % id_space()) as u64)).add(
            inc.insert(((b1 + 1) % id_space()) as u64).insert(((b1 + 2) % id_space()) as u64),
        ).subset_of(id_window(n0, b1 + 3)),
{
    broadcast use vstd::multiset::group_multiset_axioms;
    let x = Multiset::<u64>::empty().add(body.insert((b1 % id_space()) as u64)).add(
        inc.insert(((b1 + 1) % id_space()) as u64).insert(((b1 + 2) % id_space()) as u64),
    );
    let y0 = inc.add(body);
    let y1 = y0.insert((b1 % id_space()) as u64);
    let y2 = y1.insert(((b1 + 1) % id_space()) as u64);
    let y3 = y2.insert(((b1 + 2) % id_space()) as u64);
    lemma_window_join(inc, n0, n1, body, b0, b1);
    crate::parser::node::lemma_window_push(y0, n0, b1);
    crate::parser::node::lemma_window_push(y1, n0, b1 + 1);
    crate::parser::node::lemma_window_push(y2, n0, b1 + 2);
    assert(x =~= y3);
}

proof fn lemma_decls_ids_two(a: Declaration, b: Declaration)
    ensures
        decls_ids(seq![a, b]) == Multiset::<u64>::empty().add(decl_ids(a)).add(decl_ids(b)),
        decls_ids(seq![b]) == Multiset::<u64>::empty().add(decl_ids(b)),
{
    assert(seq![a, b].drop_last() =~= seq![a]);
    assert(seq![a].drop_last() =~= Seq::<Declaration>::empty());
    assert(seq![b].drop_last() =~= Seq::<Declaration>::empty());
    assert(decls_ids(Seq::<Declaration>::empty()) == Multiset::<u64>::empty());
    assert(decls_ids(seq![a]) == decls_ids(Seq::<Declaration>::empty()).add(decl_ids(a)));
    assert(decls_ids(seq![b]) == decls_ids(Seq::<Declaration>::empty()).add(decl_ids(b)));
    assert(decls_ids(seq![a, b]) == decls_ids(seq![a]).add(decl_ids(b)));
}

/// A declaration that `r` holds has node ids handed out while the count of
/// issued ids went from `lo` to `hi`.
pub open spec fn fresh_decl(r: Result<Declaration, Diagnostic>, lo: nat, hi: nat) -> bool {
    r matches Ok(d) ==> fresh_ids(decl_ids(d), lo, hi)
}

pub type ParseDeclarationResult = Result<Declaration, Diagnostic>;

/// A block statement holding `decls`, spanning from the first to the last
/// (`0..0` when there are none).
pub fn block_statement(ids: &mut NodeIds, decls: Vec<Declaration>) -> (r: Statement)
    ensures
        stmt_v(r) == block_of(decls_v(decls@)),
        final(ids).issued() == old(ids).issued() + 1,
        stmt_ids(r) == decls_ids(decls@).insert((old(ids).issued() % id_space()) as u64),
{
    proof {
        lemma_decls_v(decls@);
        if decls@.len() > 0 {
            lemma_decl_v_span(decls@[0]);
            lemma_decl_v_span(decls@.last());
        }
    }
    let start = if decls.len() > 0 {
        decls[0].span.start
    } else {
        0
    };
    let end = if decls.len() > 0 {
        decls[decls.len() - 1].span.end
    } else {
        0
    };
    Node::new(ids, Span { start, end }, StatementKind::Block(decls))
}

/// A declaration that holds `stmt`, with its span.
pub fn statement_declaration(ids: &mut NodeIds, stmt: Statement) -> (r: Declaration)
    ensures
        decl_v(r) == decl_of_stmt(stmt_v(stmt)),
        final(ids).issued() == old(ids).issued() + 1,
        decl_ids(r) == stmt_ids(stmt).insert((old(ids).issued() % id_space()) as u64),
{
    proof {
        lemma_stmt_v_span(stmt);
    }
    let sp = stmt.span;
    Node::new(ids, sp, DeclarationKind::Statement(stmt))
}

/// A declaration that holds the expression statement `expr`, with its span.
pub fn expression_declaration(ids: &mut NodeIds, expr: Expression) -> (r: Declaration)
    ensures
        decl_v(r) == decl_of_expr(expr_v(expr)),
        final(ids).issued() == old(ids).issued() + 2,
        decl_ids(r) == expr_ids(expr).insert((old(ids).issued() % id_space()) as u64).insert(
            ((old(ids).issued() + 1) % id_space()) as u64,
        ),
{
    proof {
        lemma_expr_v_span(expr);
    }
    let sp = expr.span;
    let stmt = Node::new(ids, sp, StatementKind::Expression(expr));
    Node::new(ids, sp, DeclarationKind::Statement(stmt))
}

impl Parser {
    pub fn parse_declaration(&mut self) -> (r: ParseDeclarationResult)
        requires
            old(self).wf(),
            sp_declaration(old(self).toks(), old(self).pos()) !is Halted,
        ensures
            final(self).wf(),
            final(self).keeps(*old(self)),
            decl_outcome(r, final(self).pos(), sp_declaration(old(self).toks(), old(self).pos())),
            fresh_decl(r, old(self).ids.issued(), final(self).ids.issued()),
        decreases old(self).tokens@.len() - old(self).current, 29int,
    {
        proof {
            reveal(sp_declaration);
            reveal(sp_fun_declaration);
            reveal(sp_statement_declaration);
        }
        match self.peek_type() {
            Some(TokenKindOf::Var) => self.parse_var_declaration(),
            Some(TokenKindOf::Fun) => self.parse_fun_declaration(),
            _ => self.parse_statement_declaration(),
        }
    }

    pub fn parse_statement_declaration(&mut self) -> (r: ParseDeclarationResult)
        requires
            old(self).wf(),
            sp_statement_declaration(old(self).toks(), old(self).pos()) !is Halted,
        ensures
            final(self).wf(),
            final(self).keeps(*old(self)),
            decl_outcome(r, final(self).pos(), sp_statement_declaration(old(self).toks(), old(self).pos())),
            fresh_decl(r, old(self).ids.issued(), final(self).ids.issued()),
        decreases old(self).tokens@.len() - old(self).current, 28int,
    {
        proof {
            reveal(sp_statement_declaration);
            reveal(sp_statement);
        }
        match self.parse_statement() {
            Ok(stmt) => {
                proof {
                    lemma_node_ids(stmt_ids(stmt), old(self).ids.issued(), old(self).ids.issued(), self.ids.issued(), self.ids.issued());
                }
                Ok(statement_declaration(&mut self.ids, stmt))
            },
            Err(e) => Err(e),
        }
    }

    pub fn parse_fun_declaration(&mut self) -> (r: ParseDeclarationResult)
        requires
            old(self).wf(),
            sp_fun_declaration(old(self).toks(), old(self).pos()) !is Halted,
        ensures
            final(self).wf(),
            final(self).keeps(*old(self)),
            decl_outcome(r, final(self).pos(), sp_fun_declaration(old(self).toks(), old(self).pos())),
            fresh_decl(r, old(self).ids.issued(), final(self).ids.issued()),
        decreases old(self).tokens@.len() - old(self).current, 26int,
    {
        proof {
            reveal(sp_fun_declaration);
            reveal(sp_block_statement);
        }
        let ghost ts = self.toks();
        let ghost p = self.pos();
        let fun = match self.expect_token(TokenKindOf::Fun) {
            Ok(s) => s,
            Err(e) => return Err(e),
        };
        let name = match self.expect_identifier() {
            Ok(x) => x.0,
            Err(e) => return Err(e),
        };
        match self.expect_token(TokenKindOf::LeftParen) {
            Ok(_) => {},
            Err(e) => return Err(e),
        }
        let ghost target = sp_params(ts, p + 3, Seq::empty());
        let mut parameter_names: Vec<Span> = Vec::new();
        loop
            invariant_except_break
                sp_params(ts, self.pos(), parameter_names@) == target,
            invariant
                self.wf(),
                self.keeps(*old(self)),
                ts == self.toks(),
                ts == old(self).toks(),
                p == old(self).pos(),
                p + 3 <= self.pos(),
                target == sp_params(ts, p + 3, Seq::empty()),
            ensures
                target == (parameter_names@, self.pos()),
            decreases self.tokens@.len() - self.current,
        {
            match self.peek_type() {
                Some(TokenKindOf::Identifier(_)) => {},
                _ => break,
            }
            let param = match self.expect_identifier() {
                Ok(x) => x.0,
                Err(e) => return Err(e),
            };
            parameter_names.push(param);
            if let Some(TokenKindOf::Comma) = self.peek_type() {
                let _ = self.advance();
            } else {
                break;
            }
        }
        match self.expect_token(TokenKindOf::RightParen) {
            Ok(_) => {},
            Err(e) => return Err(e),
        }
        let ghost b0 = self.ids.issued();
        let body = match self.parse_block_statement() {
            Ok(b) => b,
            Err(e) => return Err(e),
        };
        proof {
            lemma_stmt_v_span(body);
            lemma_node_ids(stmt_ids(body), old(self).ids.issued(), b0, self.ids.issued(), self.ids.issued());
        }
        let body_span = body.span;
        Ok(
            Node::encapsulating(
                &mut self.ids,
                fun,
                body_span,
                DeclarationKind::Function(Function { name, parameter_names, body: Box::new(body) }),
            ),
        )
    }

    pub fn parse_var_declaration(&mut self) -> (r: ParseDeclarationResult)
        requires
            old(self).wf(),
            sp_var_declaration(old(self).toks(), old(self).pos()) !is Halted,
        ensures
            final(self).wf(),
            final(self).keeps(*old(self)),
            decl_outcome(r, final(self).pos(), sp_var_declaration(old(self).toks(), old(self).pos())),
            fresh_decl(r, old(self).ids.issued(), final(self).ids.issued()),
        decreases old(self).tokens@.len() - old(self).current, 26int,
    {
        proof {
            reveal(sp_var_declaration);
        }
        let start = match self.expect_token(TokenKindOf::Var) {
            Ok(s) => s.start,
            Err(e) => return Err(e),
        };
        let identifier = match self.expect_identifier() {
            Ok(x) => x.0,
            Err(e) => return Err(e),
        };
        let next_tok = match self.advance() {
            Ok(t) => t,
            Err(e) => return Err(e),
        };
        proof {
            lemma_leaf_ids(old(self).ids.issued(), self.ids.issued());
        }
        match next_tok.node {
            TokenKindOf::Equal => {
                let ghost e0 = self.ids.issued();
                let expr = match self.parse_expression() {
                    Ok(e) => e,
                    Err(e) => return Err(e),
                };
                let ghost e1 = self.ids.issued();
                let semi = match self.expect_token(TokenKindOf::Semicolon) {
                    Ok(s) => s,
                    Err(e) => return Err(e),
                };
                proof {
                    lemma_node_ids(expr_ids(expr), old(self).ids.issued(), e0, e1, self.ids.issued());
                }
                Ok(
                    Node::new(
                        &mut self.ids,
                        Span { start, end: semi.end },
                        DeclarationKind::Var(Var { identifier, initial: Some(expr) }),
                    ),
                )
            },
            TokenKindOf::Semicolon => Ok(
                Node::new(
                    &mut self.ids,
                    Span { start, end: next_tok.span.end },
                    DeclarationKind::Var(Var { identifier, initial: None }),
                ),
            ),
            _ => Err(Diagnostic::error(next_tok.span, "expected '=' or ';' when parsing declaration")),
        }
    }

    pub fn parse_statement(&mut self) -> (r: ParseStatementResult)
        requires
            old(self).wf(),
            sp_statement(old(self).toks(), old(self).pos()) !is Halted,
        ensures
            final(self).wf(),
            final(self).keeps(*old(self)),
            stmt_outcome(r, final(self).pos(), sp_statement(old(self).toks(), old(self).pos())),
            fresh_stmt(r, old(self).ids.issued(), final(self).ids.issued()),
        decreases old(self).tokens@.len() - old(self).current, 27int,
    {
        proof {
            reveal(sp_statement);
            reveal(sp_block_statement);
            reveal(sp_if_statement);
            reveal(sp_while_statement);
            reveal(sp_for_statement);
        }
        match self.peek_type() {
            Some(TokenKindOf::Print) => {
                let start = match self.advance() {
                    Ok(t) => t.span.start,
                    Err(e) => return Err(e),
                };
                let ghost e0 = self.ids.issued();
                let expr = match self.parse_expression() {
                    Ok(e) => e,
                    Err(e) => return Err(e),
                };
                let ghost e1 = self.ids.issued();
                let semi = match self.expect_token(TokenKindOf::Semicolon) {
                    Ok(s) => s,
                    Err(e) => return Err(e),
                };
                proof {
                    lemma_node_ids(expr_ids(expr), old(self).ids.issued(), e0, e1, self.ids.issued());
                }
                Ok(Node::new(&mut self.ids, Span { start, end: semi.end }, StatementKind::Print(expr)))
            },
            Some(TokenKindOf::Return) => self.parse_return_statement(),
            Some(TokenKindOf::LeftBrace) => self.parse_block_statement(),
            Some(TokenKindOf::If) => self.parse_if_statement(),
            Some(TokenKindOf::While) => self.parse_while_statement(),
            Some(TokenKindOf::For) => self.parse_for_statement(),
            _ => {
                let expr = match self.parse_expression() {
                    Ok(e) => e,
                    Err(e) => return Err(e),
                };
                proof {
                    lemma_expr_v_span(expr);
                }
                let expr_span = expr.span;
                let ghost e1 = self.ids.issued();
                let semi = match self.expect_token(TokenKindOf::Semicolon) {
                    Ok(s) => s,
                    Err(e) => return Err(e),
                };
                proof {
                    lemma_node_ids(expr_ids(expr), old(self).ids.issued(), old(self).ids.issued(), e1, self.ids.issued());
                }
                Ok(Node::encapsulating(&mut self.ids, expr_span, semi, StatementKind::Expression(expr)))
            },
        }
    }

    pub fn parse_return_statement(&mut self) -> (r: ParseStatementResult)
        requires
            old(self).wf(),
            sp_return_statement(old(self).toks(), old(self).pos()) !is Halted,
        ensures
            final(self).wf(),
            final(self).keeps(*old(self)),
            stmt_outcome(r, final(self).pos(), sp_return_statement(old(self).toks(), old(self).pos())),
            fresh_stmt(r, old(self).ids.issued(), final(self).ids.issued()),
        decreases old(self).tokens@.len() - old(self).current, 26int,
    {
        proof {
            reveal(sp_return_statement);
        }
        let start = match self.expect_token(TokenKindOf::Return) {
            Ok(s) => s,
            Err(e) => return Err(e),
        };
        let ghost e0 = self.ids.issued();
        let expr = match self.parse_expression() {
            Ok(e) => e,
            Err(e) => return Err(e),
        };
        let ghost e1 = self.ids.issued();
        let end = match self.expect_token(TokenKindOf::Semicolon) {
            Ok(s) => s,
            Err(e) => return Err(e),
        };
        proof {
            lemma_node_ids(expr_ids(expr), old(self).ids.issued(), e0, e1, self.ids.issued());
        }
        Ok(Node::encapsulating(&mut self.ids, start, end, StatementKind::Return(Some(expr))))
    }

    pub fn parse_block_statement(&mut self) -> (r: ParseStatementResult)
        requires
            old(self).wf(),
            sp_block_statement(old(self).toks(), old(self).pos()) !is Halted,
        ensures
            final(self).wf(),
            final(self).keeps(*old(self)),
            stmt_outcome(r, final(self).pos(), sp_block_statement(old(self).toks(), old(self).pos())),
            fresh_stmt(r, old(self).ids.issued(), final(self).ids.issued()),
        decreases old(self).tokens@.len() - old(self).current, 26int,
    {
        proof {
            reveal(sp_block_statement);
            reveal(sp_block_items);
        }
        let ghost ts = self.toks();
        let ghost p = self.pos();
        let start = match self.expect_token(TokenKindOf::LeftBrace) {
            Ok(s) => s.start,
            Err(e) => return Err(e),
        };
        let ghost target = sp_block_items(ts, p + 1, Seq::empty());
        let mut decls: Vec<Declaration> = Vec::new();
        assert(decls_v(decls@) =~= Seq::<DeclV>::empty());
        assert(decls_ids(decls@) =~= Multiset::<u64>::empty());
        proof {
            lemma_empty_ids(old(self).ids.issued(), self.ids.issued());
        }
        loop
            invariant_except_break
                sp_block_items(ts, self.pos(), decls_v(decls@)) == target,
            invariant
                self.wf(),
                self.keeps(*old(self)),
                ts == self.toks(),
                ts == old(self).toks(),
                p == old(self).pos(),
                p < self.pos(),
                target == sp_block_items(ts, p + 1, Seq::empty()),
                sp_expect(ts, p, SpecTokenKind::LeftBrace) is Done,
                sp_block_statement(ts, p) !is Halted,
                fresh_ids(decls_ids(decls@), old(self).ids.issued(), self.ids.issued()),
                target !is Halted,
            ensures
                target == Parsed::Done(decls_v(decls@), self.pos()),
            decreases self.tokens@.len() - self.current,
        {
            proof {
                reveal(sp_block_items);
                reveal(sp_declaration);
                reveal(sp_block_statement);
            }
            match self.peek_type() {
                Some(TokenKindOf::RightBrace) => break,
                None => break,
                _ => {},
            }
            let ghost d0 = self.ids.issued();
            let d = match self.parse_declaration() {
                Ok(d) => d,
                Err(e) => return Err(e),
            };
            proof {
                lemma_decls_v_push(decls@, d);
                lemma_decls_ids_push(decls@, d);
                lemma_window_join(decls_ids(decls@), old(self).ids.issued(), d0, decl_ids(d), d0, self.ids.issued());
            }
            decls.push(d);
        }
        let ghost t = self.ids.issued();
        let semi = match self.expect_token(TokenKindOf::RightBrace) {
            Ok(s) => s,
            Err(e) => return Err(e),
        };
        proof {
            lemma_node_ids(decls_ids(decls@), old(self).ids.issued(), old(self).ids.issued(), t, self.ids.issued());
        }
        Ok(Node::new(&mut self.ids, Span { start, end: semi.end }, StatementKind::Block(decls)))
    }

    pub fn parse_if_statement(&mut self) -> (r: ParseStatementResult)
        requires
            old(self).wf(),
            sp_if_statement(old(self).toks(), old(self).pos()) !is Halted,
        ensures
            final(self).wf(),
            final(self).keeps(*old(self)),
            stmt_outcome(r, final(self).pos(), sp_if_statement(old(self).toks(), old(self).pos())),
            fresh_stmt(r, old(self).ids.issued(), final(self).ids.issued()),
        decreases old(self).tokens@.len() - old(self).current, 26int,
    {
        proof {
            reveal(sp_if_statement);
            reveal(sp_statement);
        }
        let start = match self.expect_token(TokenKindOf::If) {
            Ok(s) => s.start,
            Err(e) => return Err(e),
        };
        match self.expect_token(TokenKindOf::LeftParen) {
            Ok(_) => {},
            Err(e) => return Err(e),
        }
        let ghost c0 = self.ids.issued();
        let condition = match self.parse_expression() {
            Ok(e) => e,
            Err(e) => return Err(e),
        };
        let ghost c1 = self.ids.issued();
        match self.expect_token(TokenKindOf::RightParen) {
            Ok(_) => {},
            Err(e) => return Err(e),
        }
        let ghost t0 = self.ids.issued();
        let then_branch = match self.parse_statement() {
            Ok(s) => s,
            Err(e) => return Err(e),
        };
        let ghost t1 = self.ids.issued();
        proof {
            lemma_stmt_v_span(then_branch);
            lemma_window_join(expr_ids(condition), c0, c1, stmt_ids(then_branch), t0, t1);
            lemma_empty_ids(t1, t1);
            lemma_window_join(expr_ids(condition).add(stmt_ids(then_branch)), c0, t1, Multiset::empty(), t1, t1);
        }
        let mut end = then_branch.span.end;
        let mut else_branch: Option<Box<Statement>> = None;
        if let Some(TokenKindOf::Else) = self.peek_type() {
            let _ = self.advance();
            let ghost s0 = self.ids.issued();
            let else_stmt = match self.parse_statement() {
                Ok(s) => s,
                Err(e) => return Err(e),
            };
            proof {
                lemma_stmt_v_span(else_stmt);
                lemma_window_join(expr_ids(condition).add(stmt_ids(then_branch)), c0, t1, stmt_ids(else_stmt), s0, self.ids.issued());
            }
            end = else_stmt.span.end;
            else_branch = Some(Box::new(else_stmt));
        }
        let ghost below = expr_ids(condition).add(stmt_ids(then_branch)).add(else_ids(else_branch));
        proof {
            lemma_node_ids(below, old(self).ids.issued(), c0, self.ids.issued(), self.ids.issued());
        }
        Ok(
            Node::new(
                &mut self.ids,
                Span { start, end },
                StatementKind::If(If { condition, then_branch: Box::new(then_branch), else_branch }),
            ),
        )
    }

    pub fn parse_while_statement(&mut self) -> (r: ParseStatementResult)
        requires
            old(self).wf(),
            sp_while_statement(old(self).toks(), old(self).pos()) !is Halted,
        ensures
            final(self).wf(),
            final(self).keeps(*old(self)),
            stmt_outcome(r, final(self).pos(), sp_while_statement(old(self).toks(), old(self).pos())),
            fresh_stmt(r, old(self).ids.issued(), final(self).ids.issued()),
        decreases old(self).tokens@.len() - old(self).current, 26int,
    {
        proof {
            reveal(sp_while_statement);
            reveal(sp_statement);
        }
        let while_span = match self.expect_token(TokenKindOf::While) {
            Ok(s) => s,
            Err(e) => return Err(e),
        };
        match self.expect_token(TokenKindOf::LeftParen) {
            Ok(_) => {},
            Err(e) => return Err(e),
        }
        let ghost c0 = self.ids.issued();
        let condition = match self.parse_expression() {
            Ok(e) => e,
            Err(e) => return Err(e),
        };
        let ghost c1 = self.ids.issued();
        match self.expect_token(TokenKindOf::RightParen) {
            Ok(_) => {},
            Err(e) => return Err(e),
        }
        let ghost b0 = self.ids.issued();
        let body = match self.parse_statement() {
            Ok(s) => s,
            Err(e) => return Err(e),
        };
        proof {
            lemma_stmt_v_span(body);
            lemma_node_ids2(expr_ids(condition), c0, c1, stmt_ids(body), b0, self.ids.issued(), self.ids.issued());
            lemma_window_widen(
                expr_ids(condition).add(stmt_ids(body)).insert((self.ids.issued() % id_space()) as u64),
                c0, self.ids.issued() + 1, old(self).ids.issued(), self.ids.issued() + 1,
            );
        }
        let body_span = body.span;
        Ok(
            Node::encapsulating(
                &mut self.ids,
                while_span,
                body_span,
                StatementKind::While(While { condition, body: Box::new(body) }),
            ),
        )
    }

    /// The initializer of a `for` loop.
    fn parse_for_init(&mut self) -> (r: Result<Option<Declaration>, Diagnostic>)
        requires
            old(self).wf(),
            sp_for_init(old(self).toks(), old(self).pos()) !is Halted,
        ensures
            final(self).wf(),
            final(self).keeps(*old(self)),
            outcome_is(r, |d: Option<Declaration>| opt_decl_v(d), final(self).pos(), sp_for_init(old(self).toks(), old(self).pos())),
            r matches Ok(Some(d)) ==> fresh_ids(decl_ids(d), old(self).ids.issued(), final(self).ids.issued()),
        decreases old(self).tokens@.len() - old(self).current, 29int,
    {
        proof {
            reveal(sp_for_init);
            reveal(sp_statement_declaration);
        }
        match self.peek_type() {
            Some(TokenKindOf::Semicolon) => {
                let _ = self.advance();
                Ok(None)
            },
            Some(TokenKindOf::Var) => match self.parse_var_declaration() {
                Ok(d) => Ok(Some(d)),
                Err(e) => Err(e),
            },
            _ => match self.parse_statement_declaration() {
                Ok(d) => Ok(Some(d)),
                Err(e) => Err(e),
            },
        }
    }

    /// The condition of a `for` loop, with its `;`.
    fn parse_for_condition(&mut self) -> (r: Result<Expression, Diagnostic>)
        requires
            old(self).wf(),
            sp_for_condition(old(self).toks(), old(self).pos()) !is Halted,
        ensures
            final(self).wf(),
            final(self).keeps(*old(self)),
            outcome_is(r, |e: Expression| expr_v(e), final(self).pos(), sp_for_condition(old(self).toks(), old(self).pos())),
            fresh_expr(r, old(self).ids.issued(), final(self).ids.issued()),
        decreases old(self).tokens@.len() - old(self).current, 26int,
    {
        proof {
            reveal(sp_for_condition);
        }
        match self.peek_type() {
            Some(TokenKindOf::Semicolon) => {
                let _ = self.advance();
                let sp = self.current_span();
                proof {
                    lemma_leaf_ids(old(self).ids.issued(), self.ids.issued());
                }
                Ok(Node::new(&mut self.ids, sp, ExpressionKind::Literal(Literal::Bool(true))))
            },
            _ => {
                let expr = match self.parse_expression() {
                    Ok(e) => e,
                    Err(e) => return Err(e),
                };
                let ghost e1 = self.ids.issued();
                match self.expect_token(TokenKindOf::Semicolon) {
                    Ok(_) => {
                        proof {
                            lemma_window_widen(expr_ids(expr), old(self).ids.issued(), e1, old(self).ids.issued(), self.ids.issued());
                        }
                        Ok(expr)
                    },
                    Err(e) => Err(e),
                }
            },
        }
    }

    /// The increment of a `for` loop, if any.
    fn parse_for_increment(&mut self) -> (r: Result<Option<Expression>, Diagnostic>)
        requires
            old(self).wf(),
            sp_for_increment(old(self).toks(), old(self).pos()) !is Halted,
        ensures
            final(self).wf(),
            final(self).keeps(*old(self)),
            outcome_is(r, |e: Option<Expression>| opt_expr_view(e), final(self).pos(), sp_for_increment(old(self).toks(), old(self).pos())),
            r matches Ok(Some(e)) ==> fresh_ids(expr_ids(e), old(self).ids.issued(), final(self).ids.issued()),
        decreases old(self).tokens@.len() - old(self).current, 26int,
    {
        proof {
            reveal(sp_for_increment);
        }
        match self.peek_type() {
            Some(TokenKindOf::RightParen) => Ok(None),
            _ => match self.parse_expression() {
                Ok(e) => Ok(Some(e)),
                Err(e) => Err(e),
            },
        }
    }

    /// A `for` loop, as the block that it stands for.
    #[verifier::rlimit(100)]
    #[verifier::spinoff_prover]
    pub fn parse_for_statement(&mut self) -> (r: ParseStatementResult)
        requires
            old(self).wf(),
            sp_for_statement(old(self).toks(), old(self).pos()) !is Halted,
        ensures
            final(self).wf(),
            final(self).keeps(*old(self)),
            stmt_outcome(r, final(self).pos(), sp_for_statement(old(self).toks(), old(self).pos())),
            fresh_stmt(r, old(self).ids.issued(), final(self).ids.issued()),
        decreases old(self).tokens@.len() - old(self).current, 26int,
    {
        proof {
            reveal(sp_for_statement);
            reveal(sp_for_init);
            reveal(sp_statement);
        }
        let for_span = match self.expect_token(TokenKindOf::For) {
            Ok(s) => s,
            Err(e) => return Err(e),
        };
        match self.expect_token(TokenKindOf::LeftParen) {
            Ok(_) => {},
            Err(e) => return Err(e),
        }
        let ghost i0 = self.ids.issued();
        let init = match self.parse_for_init() {
            Ok(i) => i,
            Err(e) => return Err(e),
        };
        let ghost c0 = self.ids.issued();
        let condition = match self.parse_for_condition() {
            Ok(c) => c,
            Err(e) => return Err(e),
        };
        let ghost n0 = self.ids.issued();
        let increment = match self.parse_for_increment() {
            Ok(i) => i,
            Err(e) => return Err(e),
        };
        let ghost n1 = self.ids.issued();
        match self.expect_token(TokenKindOf::RightParen) {
            Ok(_) => {},
            Err(e) => return Err(e),
        }
        let ghost b0 = self.ids.issued();
        let mut body = match self.parse_statement() {
            Ok(s) => s,
            Err(e) => return Err(e),
        };
        let ghost b1 = self.ids.issued();
        let ghost init_g = init;
        let ghost body_v = stmt_v(body);
        let ghost cond_v = expr_v(condition);
        let ghost init_v = opt_decl_v(init);
        let ghost full_v = match opt_expr_view(increment) {
            Some(i) => block_of(seq![decl_of_stmt(body_v), decl_of_expr(i)]),
            None => body_v,
        };
        match increment {
            Some(inc) => {
                let ghost body_g = body;
                let first = statement_declaration(&mut self.ids, body);
                let second = expression_declaration(&mut self.ids, inc);
                proof {
                    lemma_decls_ids_two(first, second);
                    lemma_for_body_ids(stmt_ids(body_g), expr_ids(inc), n0, n1, b0, b1);
                }
                let mut parts: Vec<Declaration> = Vec::new();
                parts.push(first);
                parts.push(second);
                proof {
                    lemma_decls_v(parts@);
                    assert(decls_v(parts@) =~= seq![decl_v(first), decl_v(second)]);
                }
                proof {
                    assert(parts@ =~= seq![first, second]);
                    crate::parser::node::lemma_window_push(decls_ids(parts@), n0, (b1 + 3) as nat);
                }
                body = block_statement(&mut self.ids, parts);
            },
            None => {
                proof {
                    lemma_window_widen(stmt_ids(body), b0, b1, n0, b1);
                }
            },
        }
        let ghost wc = self.ids.issued();
        assert(fresh_ids(stmt_ids(body), n0, wc));
        proof {
            lemma_node_ids2(expr_ids(condition), c0, n0, stmt_ids(body), n0, wc, wc);
        }
        assert(stmt_v(body) == full_v);
        proof {
            lemma_stmt_v_span(body);
        }
        let body_span = body.span;
        let while_stmt = Node::encapsulating(
            &mut self.ids,
            for_span,
            body_span,
            StatementKind::While(While { condition, body: Box::new(body) }),
        );
        let ghost w = StmtV::While(
            Span { start: for_span.start, end: full_v.span().end },
            cond_v,
            Box::new(full_v),
        );
        assert(stmt_v(while_stmt) == w);
        let ghost wd0 = self.ids.issued();
        let while_decl = statement_declaration(&mut self.ids, while_stmt);
        proof {
            crate::parser::node::lemma_window_push(stmt_ids(while_stmt), c0, wd0);
            lemma_empty_ids(c0, c0);
            lemma_empty_ids(i0, i0);
        }
        let mut block: Vec<Declaration> = Vec::new();
        match init {
            Some(d) => block.push(d),
            None => {},
        }
        block.push(while_decl);
        proof {
            match init_g {
                Some(d) => {
                    assert(block@ =~= seq![d, while_decl]);
                    lemma_decls_ids_two(d, while_decl);
                    lemma_window_join(Multiset::empty(), i0, i0, decl_ids(d), i0, c0);
                    lemma_window_join(Multiset::empty().add(decl_ids(d)), i0, c0, decl_ids(while_decl), c0, self.ids.issued());
                    crate::parser::node::lemma_window_push(decls_ids(block@), i0, self.ids.issued());
                },
                None => {
                    assert(block@ =~= seq![while_decl]);
                    lemma_decls_ids_two(while_decl, while_decl);
                    lemma_window_join(Multiset::empty(), c0, c0, decl_ids(while_decl), c0, self.ids.issued());
                    lemma_window_widen(decls_ids(block@), c0, self.ids.issued(), i0, self.ids.issued());
                    crate::parser::node::lemma_window_push(decls_ids(block@), i0, self.ids.issued());
                },
            }
            lemma_window_widen(
                decls_ids(block@).insert((self.ids.issued() % id_space()) as u64),
                i0, self.ids.issued() + 1, old(self).ids.issued(), self.ids.issued() + 1,
            );
        }
        proof {
            lemma_decls_v(block@);
            match init_v {
                Some(dv) => assert(decls_v(block@) =~= seq![dv, decl_of_stmt(w)]),
                None => assert(decls_v(block@) =~= seq![decl_of_stmt(w)]),
            }
        }
        Ok(block_statement(&mut self.ids, block))
    }
}

/// `ds` are errors with the spans and messages `gs`, in order.
pub open spec fn errors_are(ds: Seq<Diagnostic>, gs: Seq<(Span, Seq<char>)>) -> bool {
    &&& ds.len() == gs.len()
    &&& forall|j: int| 0 <= j < gs.len() ==> error_is(#[trigger] ds[j], gs[j].0, gs[j].1)
}

impl Parser {
    /// Parses declarations up to the end of the tokens. A declaration that
    /// parses is kept; one that does not has its error kept, and parsing
    /// resumes after `synchronize`.
    pub fn parse(&mut self)
        requires
            old(self).wf(),
        ensures
            final(self).wf(),
            final(self).ids.issued() >= old(self).ids.issued(),
            old(self).decls@.len() == 0 ==> fresh_ids(
                decls_ids(final(self).decls@),
                old(self).ids.issued(),
                final(self).ids.issued(),
            ),
            final(self).tokens@ == old(self).tokens@,
            decls_v(final(self).decls@) == decls_v(old(self).decls@) + sp_program(
                old(self).toks(),
                old(self).pos(),
                seq![],
                seq![],
            ).unwrap().0,
            final(self).diagnostics@.len() >= old(self).diagnostics@.len(),
            final(self).diagnostics@.subrange(0, old(self).diagnostics@.len() as int)
                == old(self).diagnostics@,
            errors_are(
                final(self).diagnostics@.subrange(
                    old(self).diagnostics@.len() as int,
                    final(self).diagnostics@.len() as int,
                ),
                sp_program(old(self).toks(), old(self).pos(), seq![], seq![]).unwrap().1,
            ),
    {
        proof {
            crate::parser::progress::lemma_program(self.toks(), self.pos(), seq![], seq![]);
        }
        let ghost ts = self.toks();
        let ghost target = sp_program(ts, self.pos(), seq![], seq![]);
        let ghost n = self.diagnostics@.len() as int;
        let ghost mut done_d: Seq<DeclV> = seq![];
        let ghost mut done_g: Seq<(Span, Seq<char>)> = seq![];
        assert(decls_v(self.decls@) + done_d =~= decls_v(self.decls@));
        proof {
            if self.decls@.len() == 0 {
                assert(decls_ids(self.decls@) =~= Multiset::<u64>::empty());
                lemma_empty_ids(self.ids.issued(), self.ids.issued());
            }
        }
        assert(self.diagnostics@.subrange(0, n) =~= self.diagnostics@);
        assert(self.diagnostics@.subrange(n, n) =~= Seq::<Diagnostic>::empty());
        loop
            invariant
                self.wf(),
                self.tokens@ == old(self).tokens@,
                self.ids.issued() >= old(self).ids.issued(),
                old(self).decls@.len() == 0 ==> fresh_ids(decls_ids(self.decls@), old(self).ids.issued(), self.ids.issued()),
                ts == self.toks(),
                ts == old(self).toks(),
                n == old(self).diagnostics@.len(),
                target == sp_program(ts, old(self).pos(), seq![], seq![]),
                target is Some,
                sp_program(ts, self.pos(), done_d, done_g) == target,
                decls_v(self.decls@) == decls_v(old(self).decls@) + done_d,
                self.diagnostics@.len() == n + done_g.len(),
                self.diagnostics@.subrange(0, n) == old(self).diagnostics@,
                errors_are(self.diagnostics@.subrange(n, self.diagnostics@.len() as int), done_g),
            ensures
                self.pos() >= ts.len(),
            decreases self.tokens@.len() - self.current,
        {
            proof {
                reveal(sp_program);
            }
            if self.current >= self.tokens.len() {
                break;
            }
            let ghost p = self.pos();
            let ghost d0 = self.ids.issued();
            match self.parse_declaration() {
                Ok(decl) => {
                    proof {
                        lemma_decls_ids_push(self.decls@, decl);
                        if old(self).decls@.len() == 0 {
                            lemma_window_join(decls_ids(self.decls@), old(self).ids.issued(), d0, decl_ids(decl), d0, self.ids.issued());
                        }
                        lemma_decls_v_push(self.decls@, decl);
                        done_d = done_d.push(decl_v(decl));
                    }
                    self.decls.push(decl);
                },
                Err(diag) => {
                    let ghost before = self.diagnostics@;
                    self.diagnostics.push(diag);
                    proof {
                        done_g = done_g.push((diag.span, diag.message@));
                        assert(self.diagnostics@.subrange(0, n) =~= before.subrange(0, n));
                        assert(self.diagnostics@.subrange(n, self.diagnostics@.len() as int) =~= before.subrange(
                            n,
                            before.len() as int,
                        ).push(diag));
                    }
                    self.synchronize();
                    proof {
                        if old(self).decls@.len() == 0 {
                            lemma_window_widen(decls_ids(self.decls@), old(self).ids.issued(), d0, old(self).ids.issued(), self.ids.issued());
                        }
                    }
                },
            }
        }
        proof {
            reveal(sp_program);
            assert(target == Some((done_d, done_g)));
        }
    }
}

} // verus!
