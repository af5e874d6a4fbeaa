use cflox::interpreter::resolver::{resolve, Resolutions};
use cflox::parser::ast::{Declaration, DeclarationKind, Expression, StatementKind};
use cflox::parser::diagnostic::has_error;
use cflox::parser::node::Span;
use cflox::parser::parse_str;

/// Walk into a single-statement block and return the declarations it holds.
fn block_decls(decl: &Declaration) -> &[Declaration] {
    let DeclarationKind::Statement(stmt) = &decl.node else {
        panic!("expected a statement declaration");
    };
    let StatementKind::Block(decls) = &stmt.node else {
        panic!("expected a block statement");
    };
    decls
}

/// Pull the variable expression out of a `print <var>;` declaration.
fn print_variable(decl: &Declaration) -> &Expression {
    let DeclarationKind::Statement(stmt) = &decl.node else {
        panic!("expected a statement declaration");
    };
    let StatementKind::Print(expr) = &stmt.node else {
        panic!("expected a print statement");
    };
    expr
}

#[test]
fn shadowed_variable_resolves_to_nearest_scope() {
    // The inner `print a` must resolve to the inner `a` (distance 0),
    // not the outer one.
    let source = "{ var a = \"outer\"; { var a = \"inner\"; print a; } }";
    let (decls, diags) = parse_str(source);
    assert!(!has_error(&diags), "{diags:?}");

    let mut resolutions = Resolutions::new();
    let res_diags = resolve(&mut resolutions, &decls, source);
    assert!(res_diags.is_empty(), "{res_diags:?}");

    // decls[0] is the outer block; its second decl is the inner block;
    // the inner block's second decl is `print a`.
    let outer = block_decls(&decls[0]);
    let inner = block_decls(&outer[1]);
    let var_expr = print_variable(&inner[1]);

    assert_eq!(resolutions.resolve(var_expr), Some(0));
}

#[test]
fn outer_variable_is_one_scope_out() {
    let source = "{ var a = 1; { print a; } }";
    let (decls, _) = parse_str(source);
    let mut resolutions = Resolutions::new();
    let res_diags = resolve(&mut resolutions, &decls, source);
    assert!(res_diags.is_empty());
    let outer = block_decls(&decls[0]);
    let inner = block_decls(&outer[1]);
    assert_eq!(resolutions.resolve(print_variable(&inner[0])), Some(1));
}

#[test]
fn globals_are_left_unresolved() {
    let source = "var g = 1; print g;";
    let (decls, _) = parse_str(source);
    let mut resolutions = Resolutions::new();
    assert!(resolve(&mut resolutions, &decls, source).is_empty());
    assert_eq!(resolutions.resolve(print_variable(&decls[1])), None);
}

#[test]
fn reading_a_local_in_its_own_initializer() {
    let source = "{ var a = a; }";
    let (decls, _) = parse_str(source);
    let mut resolutions = Resolutions::new();
    let diags = resolve(&mut resolutions, &decls, source);
    assert_eq!(diags.len(), 1);
    assert_eq!(diags[0].message, "Can't read local variable in its own initializer.");
    assert_eq!(diags[0].span, Span { start: 10, end: 11 });
}

#[test]
fn redeclaring_in_one_scope() {
    let source = "{ var a = 1; var a = 2; }";
    let (decls, _) = parse_str(source);
    let mut resolutions = Resolutions::new();
    let diags = resolve(&mut resolutions, &decls, source);
    assert_eq!(diags.len(), 1);
    assert_eq!(diags[0].message, "Already a variable with this name in this scope.");
    assert_eq!(diags[0].span, Span { start: 13, end: 23 });
}

#[test]
fn return_outside_a_function() {
    let source = "return 1;";
    let (decls, _) = parse_str(source);
    let mut resolutions = Resolutions::new();
    let diags = resolve(&mut resolutions, &decls, source);
    assert_eq!(diags.len(), 1);
    assert_eq!(diags[0].message, "Can't return from top-level code.");
}

#[test]
fn parameters_are_one_scope_in() {
    let source = "fun f(x) { print x; }";
    let (decls, _) = parse_str(source);
    let mut resolutions = Resolutions::new();
    assert!(resolve(&mut resolutions, &decls, source).is_empty());
    let DeclarationKind::Function(f) = &decls[0].node else {
        panic!("expected a function");
    };
    let StatementKind::Block(body) = &f.body.node else {
        panic!("expected a block body");
    };
    assert_eq!(resolutions.resolve(print_variable(&body[0])), Some(0));
}
