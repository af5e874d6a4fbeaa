use cflox::parser::ast::{
    Binary, BinaryOp, Logical, LogicalOp, DeclarationKind, Expression, ExpressionKind, Literal, StatementKind, Unary,
};
use cflox::parser::lexing::scan;
use cflox::parser::node::{Node, NodeIds, Span};
use cflox::parser::{parse_str, parse_str_with_ids, Parser};

fn parser_from_str(src: &str) -> Parser {
    let (tokens, diagnostics) = scan(src);
    Parser::new(tokens, diagnostics)
}

fn parse_expr(src: &str) -> Expression {
    let mut parser = parser_from_str(src);
    parser.parse_expression().unwrap()
}

fn number(ids: &mut NodeIds, text: &str) -> Expression {
    Node::untracked(ids, ExpressionKind::Literal(Literal::Number(text.to_owned())))
}

fn negate(ids: &mut NodeIds, e: Expression) -> Expression {
    Node::untracked(ids, ExpressionKind::Unary(Unary::Negate(Box::new(e))))
}

fn not(ids: &mut NodeIds, e: Expression) -> Expression {
    Node::untracked(ids, ExpressionKind::Unary(Unary::Not(Box::new(e))))
}

fn binary(ids: &mut NodeIds, left: Expression, operator: BinaryOp, right: Expression) -> Expression {
    Node::untracked(
        ids,
        ExpressionKind::Binary(Binary { left: Box::new(left), operator, right: Box::new(right) }),
    )
}

#[test]
fn parse_empty() {
    let (decls, diag) = parse_str("");
    assert_eq!(decls.len(), 0);
    assert_eq!(diag.len(), 0);
}

#[test]
fn parse_unary() {
    let mut parser = parser_from_str("!(-10)");
    let expr1 = parser.parse_unary().unwrap();
    let mut ids = NodeIds::new();
    let ten = number(&mut ids, "10");
    let neg = negate(&mut ids, ten);
    assert_eq!(expr1, not(&mut ids, neg));
}

#[test]
fn parse_not_bool() {
    let expr = parse_expr("!!false");
    let mut ids = NodeIds::new();
    let f = Node::untracked(&mut ids, ExpressionKind::Literal(Literal::Bool(false)));
    let inner = not(&mut ids, f);
    assert_eq!(expr, not(&mut ids, inner));
}

#[test]
fn parse_factor() {
    let mut ids = NodeIds::new();
    let left = number(&mut ids, "10");
    let right = number(&mut ids, "10");
    assert_eq!(parse_expr("10 / 10"), binary(&mut ids, left, BinaryOp::Divide, right));
}

#[test]
fn parse_complex() {
    let mut ids = NodeIds::new();
    let hello = Node::untracked(&mut ids, ExpressionKind::Literal(Literal::String("hello".to_owned())));
    let four = number(&mut ids, "4");
    let cmp = binary(&mut ids, hello, BinaryOp::GreaterEqual, four);
    assert_eq!(parse_expr("-(\"hello\" >= 4)"), negate(&mut ids, cmp));

    let ten = number(&mut ids, "10");
    let neg_ten = negate(&mut ids, ten);
    let four = number(&mut ids, "4");
    let first = binary(&mut ids, neg_ten, BinaryOp::Subtract, four);
    let twelve = number(&mut ids, "12");
    let neg_twelve = negate(&mut ids, twelve);
    let sixty_four = number(&mut ids, "64");
    let quotient = binary(&mut ids, neg_twelve, BinaryOp::Divide, sixty_four);
    let nine = number(&mut ids, "9");
    let product = binary(&mut ids, quotient, BinaryOp::Multiply, nine);
    let difference = binary(&mut ids, first, BinaryOp::Subtract, product);
    let two = number(&mut ids, "2");
    let sum = binary(&mut ids, difference, BinaryOp::Add, two);
    assert_eq!(parse_expr("-10 - 4 - - 12 / 64 * 9 + 2"), sum);
}

#[test]
fn spans_cover_whole_expressions() {
    let expr = parse_expr("(1 + 2) * 3");
    assert_eq!(expr.span, Span { start: 0, end: 11 });
    match &expr.node {
        ExpressionKind::Binary(b) => {
            assert_eq!(b.left.span, Span { start: 0, end: 7 });
            assert_eq!(b.right.span, Span { start: 10, end: 11 });
        },
        other => panic!("expected a binary expression, got {other:?}"),
    }
}

#[test]
fn assignment_needs_a_variable() {
    let (decls, diags) = parse_str("1 = 2;");
    assert_eq!(decls.len(), 0);
    assert_eq!(diags.len(), 1);
    assert_eq!(diags[0].message, "Invalid assignment target");
    assert_eq!(diags[0].span, Span { start: 0, end: 1 });
}

#[test]
fn missing_token_names_both_kinds() {
    let (_, diags) = parse_str("print 1 2;");
    assert_eq!(diags.len(), 1);
    assert_eq!(diags[0].message, "expected token Semicolon, found Number(2)");
    let (_, diags) = parse_str("if x) 1;");
    assert_eq!(diags[0].message, "expected token LeftParen, found Identifier(\"x\")");
}

#[test]
fn end_of_input_is_reported_after_the_last_token() {
    let (_, diags) = parse_str("print 1");
    assert_eq!(diags.len(), 1);
    assert_eq!(diags[0].message, "unexpected end of input");
    assert_eq!(diags[0].span, Span { start: 7, end: 7 });
}

#[test]
fn bad_var_declaration() {
    let (decls, diags) = parse_str("var x 1; print x;");
    assert_eq!(diags.len(), 1);
    assert_eq!(diags[0].message, "expected '=' or ';' when parsing declaration");
    assert_eq!(diags[0].span, Span { start: 6, end: 7 });
    assert_eq!(decls.len(), 1);
}

#[test]
fn errors_resume_at_the_next_statement() {
    let (decls, diags) = parse_str("print ); var a = 1; print a;");
    assert_eq!(diags.len(), 1);
    assert_eq!(diags[0].message, "unexpected token");
    assert_eq!(decls.len(), 2);
    match &decls[0].node {
        DeclarationKind::Var(v) => assert_eq!(v.identifier, Span { start: 13, end: 14 }),
        other => panic!("expected a variable declaration, got {other:?}"),
    }
}

#[test]
fn for_loop_becomes_a_block_with_a_while() {
    let (decls, diags) = parse_str("for (var i = 0; i < 3; i = i + 1) print i;");
    assert!(diags.is_empty());
    assert_eq!(decls.len(), 1);
    let DeclarationKind::Statement(stmt) = &decls[0].node else {
        panic!("expected a statement");
    };
    let StatementKind::Block(parts) = &stmt.node else {
        panic!("expected a block");
    };
    assert_eq!(parts.len(), 2);
    assert!(matches!(parts[0].node, DeclarationKind::Var(_)));
    let DeclarationKind::Statement(loop_stmt) = &parts[1].node else {
        panic!("expected a statement");
    };
    let StatementKind::While(w) = &loop_stmt.node else {
        panic!("expected a while loop");
    };
    let StatementKind::Block(body) = &w.body.node else {
        panic!("expected the body and the increment in a block");
    };
    assert_eq!(body.len(), 2);
}

#[test]
fn functions_and_calls() {
    let (decls, diags) = parse_str("fun add(a, b) { return a + b; } print add(1, 2);");
    assert!(diags.is_empty());
    assert_eq!(decls.len(), 2);
    let DeclarationKind::Function(f) = &decls[0].node else {
        panic!("expected a function");
    };
    assert_eq!(f.name, Span { start: 4, end: 7 });
    assert_eq!(f.parameter_names, vec![Span { start: 8, end: 9 }, Span { start: 11, end: 12 }]);
    assert_eq!(decls[0].span, Span { start: 0, end: 31 });
}

#[test]
fn programs_parsed_in_turn_get_different_node_ids() {
    let mut ids = NodeIds::new();
    let (first, _) = parse_str_with_ids("a;", &mut ids);
    let (second, _) = parse_str_with_ids("a;", &mut ids);
    let id_of = |decls: &Vec<cflox::parser::ast::Declaration>| {
        let DeclarationKind::Statement(stmt) = &decls[0].node else {
            panic!("expected a statement");
        };
        let StatementKind::Expression(e) = &stmt.node else {
            panic!("expected an expression statement");
        };
        e.id()
    };
    assert_ne!(id_of(&first), id_of(&second));
    // A fresh start hands out the first ids again.
    let (again, _) = parse_str("a;");
    assert_eq!(id_of(&again), id_of(&first));
}

fn variable(ids: &mut NodeIds, start: usize) -> Expression {
    let name = Span { start, end: start + 1 };
    Node::new(ids, name, ExpressionKind::Variable(name))
}

fn logical(ids: &mut NodeIds, left: Expression, operator: LogicalOp, right: Expression) -> Expression {
    Node::untracked(
        ids,
        ExpressionKind::Logical(Logical { left: Box::new(left), operator, right: Box::new(right) }),
    )
}

#[test]
fn or_chains_group_to_the_left() {
    let mut parser = parser_from_str("a or b or c");
    let e = parser.parse_logic_or().unwrap();
    assert_eq!(parser.current, 5);
    let mut ids = NodeIds::new();
    let (a, b, c) = (variable(&mut ids, 0), variable(&mut ids, 5), variable(&mut ids, 10));
    let ab = logical(&mut ids, a, LogicalOp::Or, b);
    let expected = logical(&mut ids, ab, LogicalOp::Or, c);
    assert_eq!(e, expected);
    assert_eq!(e.span, Span { start: 0, end: 11 });
}

#[test]
fn and_binds_tighter_than_or() {
    let mut parser = parser_from_str("a and b and c or d");
    let e = parser.parse_expression().unwrap();
    assert_eq!(parser.current, 7);
    let mut ids = NodeIds::new();
    let (a, b, c, d) =
        (variable(&mut ids, 0), variable(&mut ids, 6), variable(&mut ids, 12), variable(&mut ids, 17));
    let ab = logical(&mut ids, a, LogicalOp::And, b);
    let abc = logical(&mut ids, ab, LogicalOp::And, c);
    let expected = logical(&mut ids, abc, LogicalOp::Or, d);
    assert_eq!(e, expected);
}

#[test]
fn calls_take_up_to_255_arguments() {
    let args = |n: usize| vec!["1"; n].join(", ");
    let (decls, diags) = parse_str(&format!("f({});", args(255)));
    assert!(diags.is_empty());
    assert_eq!(decls.len(), 1);
    let (_, diags) = parse_str(&format!("f({});", args(256)));
    assert_eq!(diags.len(), 1);
    assert_eq!(diags[0].message, "Can't have more than 255 arguments");
    // The 256th argument: after "f(" and 255 times "1, ".
    assert_eq!(diags[0].span, Span { start: 2 + 255 * 3, end: 3 + 255 * 3 });
}

#[test]
fn nodes_of_one_program_have_distinct_ids() {
    let mut ids = NodeIds::new();
    let (decls, diags) = parse_str_with_ids("a + b;", &mut ids);
    assert!(diags.is_empty());
    let decl = &decls[0];
    let DeclarationKind::Statement(stmt) = &decl.node else {
        panic!("expected a statement");
    };
    let StatementKind::Expression(sum) = &stmt.node else {
        panic!("expected an expression statement");
    };
    let ExpressionKind::Binary(b) = &sum.node else {
        panic!("expected a sum");
    };
    let mut all = vec![decl.id(), stmt.id(), sum.id(), b.left.id(), b.right.id()];
    all.sort();
    all.dedup();
    assert_eq!(all.len(), 5);
}
