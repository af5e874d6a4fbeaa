//! The syntax tree, and its view as plain values without node ids.
use crate::parser::node::Node;
use crate::parser::span::Span;
use vstd::prelude::*;
use vstd::multiset::Multiset;

verus! {

/// A literal value. A number keeps the text it was written with.
#[derive(Debug, PartialEq)]
pub enum Literal {
    Number(String),
    String(String),
    Bool(bool),
    Nil,
}

#[derive(Debug, PartialEq)]
pub enum ExpressionKind {
    Literal(Literal),
    Unary(Unary),
    Binary(Binary),
    Variable(Span),
    Assign(Assign),
    Logical(Logical),
    Call(Call),
    Get(Get),
    SetProperty(SetProperty),
    This,
    Super(Span),
}

pub type Expression = Node<ExpressionKind>;

#[derive(Debug, PartialEq)]
pub struct Assign {
    pub target: Span,
    pub value: Box<Expression>,
}

#[derive(Debug, PartialEq)]
pub struct Call {
    pub callee: Box<Expression>,
    pub arguments: Vec<Expression>,
}

#[derive(Debug, PartialEq)]
pub struct Get {
    pub object: Box<Expression>,
    pub name: Span,
}

#[derive(Debug, PartialEq)]
pub struct SetProperty {
    pub object: Box<Expression>,
    pub name: Span,
    pub value: Box<Expression>,
}

#[derive(Debug, PartialEq)]
pub enum StatementKind {
    Expression(Expression),
    Print(Expression),
    Return(Option<Expression>),
    Block(Vec<Declaration>),
    If(If),
    While(While),
}

#[derive(Debug, PartialEq)]
pub struct If {
    pub condition: Expression,
    pub then_branch: Box<Statement>,
    pub else_branch: Option<Box<Statement>>,
}

#[derive(Debug, PartialEq)]
pub struct While {
    pub condition: Expression,
    pub body: Box<Statement>,
}

pub type Statement = Node<StatementKind>;

#[derive(Debug, PartialEq)]
pub enum DeclarationKind {
    Statement(Statement),
    Var(Var),
    Function(Function),
    Class(Class),
}

#[derive(Debug, PartialEq)]
pub struct Var {
    pub identifier: Span,
    pub initial: Option<Expression>,
}

pub type Declaration = Node<DeclarationKind>;

#[derive(Debug, PartialEq)]
pub struct Function {
    pub name: Span,
    pub parameter_names: Vec<Span>,
    pub body: Box<Statement>,
}

#[derive(Debug, PartialEq)]
pub struct Class {
    pub name: Span,
    pub superclass: Option<Expression>,
    pub methods: Vec<Node<Function>>,
}

#[derive(Debug, PartialEq)]
pub enum Unary {
    /// negate the sign of a number
    Negate(Box<Expression>),
    /// logical (boolean) not operation
    Not(Box<Expression>),
}

#[derive(Debug, Clone, Copy, PartialEq, Eq, Structural)]
pub enum BinaryOp {
    Divide,
    Multiply,
    Add,
    Subtract,
    Greater,
    GreaterEqual,
    Less,
    LessEqual,
    Equal,
    NotEqual,
}

#[derive(Debug, PartialEq)]
pub struct Binary {
    pub left: Box<Expression>,
    pub operator: BinaryOp,
    pub right: Box<Expression>,
}

#[derive(Debug, Clone, Copy, PartialEq, Eq, Structural)]
pub enum LogicalOp {
    Or,
    And,
}

#[derive(Debug, PartialEq)]
pub struct Logical {
    pub left: Box<Expression>,
    pub operator: LogicalOp,
    pub right: Box<Expression>,
}

// Views: the same trees as plain values, with each node's span but without
// its id.

pub enum LiteralV {
    Number(Seq<char>),
    String(Seq<char>),
    Bool(bool),
    Nil,
}

pub enum ExprV {
    Literal(Span, LiteralV),
    Negate(Span, Box<ExprV>),
    Not(Span, Box<ExprV>),
    Binary(Span, Box<ExprV>, BinaryOp, Box<ExprV>),
    Variable(Span, Span),
    Assign(Span, Span, Box<ExprV>),
    Logical(Span, Box<ExprV>, LogicalOp, Box<ExprV>),
    Call(Span, Box<ExprV>, Seq<ExprV>),
    Get(Span, Box<ExprV>, Span),
    SetProperty(Span, Box<ExprV>, Span, Box<ExprV>),
    This(Span),
    Super(Span, Span),
}

pub enum StmtV {
    Expression(Span, ExprV),
    Print(Span, ExprV),
    Return(Span, Option<ExprV>),
    Block(Span, Seq<DeclV>),
    If(Span, ExprV, Box<StmtV>, Option<Box<StmtV>>),
    While(Span, ExprV, Box<StmtV>),
}

pub struct FunV {
    pub name: Span,
    pub params: Seq<Span>,
    pub body: Box<StmtV>,
}

pub enum DeclV {
    Statement(Span, StmtV),
    Var(Span, Span, Option<ExprV>),
    Function(Span, FunV),
    Class(Span, Span, Option<ExprV>, Seq<(Span, FunV)>),
}

impl ExprV {
    pub open spec fn span(self) -> Span {
        match self {
            ExprV::Literal(s, _) => s,
            ExprV::Negate(s, _) => s,
            ExprV::Not(s, _) => s,
            ExprV::Binary(s, _, _, _) => s,
            ExprV::Variable(s, _) => s,
            ExprV::Assign(s, _, _) => s,
            ExprV::Logical(s, _, _, _) => s,
            ExprV::Call(s, _, _) => s,
            ExprV::Get(s, _, _) => s,
            ExprV::SetProperty(s, _, _, _) => s,
            ExprV::This(s) => s,
            ExprV::Super(s, _) => s,
        }
    }

    /// The same expression with its outermost span replaced.
    pub open spec fn with_span(self, sp: Span) -> ExprV {
        match self {
            ExprV::Literal(_, a) => ExprV::Literal(sp, a),
            ExprV::Negate(_, a) => ExprV::Negate(sp, a),
            ExprV::Not(_, a) => ExprV::Not(sp, a),
            ExprV::Binary(_, a, b, c) => ExprV::Binary(sp, a, b, c),
            ExprV::Variable(_, a) => ExprV::Variable(sp, a),
            ExprV::Assign(_, a, b) => ExprV::Assign(sp, a, b),
            ExprV::Logical(_, a, b, c) => ExprV::Logical(sp, a, b, c),
            ExprV::Call(_, a, b) => ExprV::Call(sp, a, b),
            ExprV::Get(_, a, b) => ExprV::Get(sp, a, b),
            ExprV::SetProperty(_, a, b, c) => ExprV::SetProperty(sp, a, b, c),
            ExprV::This(_) => ExprV::This(sp),
            ExprV::Super(_, a) => ExprV::Super(sp, a),
        }
    }
}

impl StmtV {
    pub open spec fn span(self) -> Span {
        match self {
            StmtV::Expression(s, _) => s,
            StmtV::Print(s, _) => s,
            StmtV::Return(s, _) => s,
            StmtV::Block(s, _) => s,
            StmtV::If(s, _, _, _) => s,
            StmtV::While(s, _, _) => s,
        }
    }
}

impl DeclV {
    pub open spec fn span(self) -> Span {
        match self {
            DeclV::Statement(s, _) => s,
            DeclV::Var(s, _, _) => s,
            DeclV::Function(s, _) => s,
            DeclV::Class(s, _, _, _) => s,
        }
    }
}

pub open spec fn literal_v(l: Literal) -> LiteralV {
    match l {
        Literal::Number(s) => LiteralV::Number(s@),
        Literal::String(s) => LiteralV::String(s@),
        Literal::Bool(b) => LiteralV::Bool(b),
        Literal::Nil => LiteralV::Nil,
    }
}

/// The view of an expression.
pub open spec fn expr_v(e: Expression) -> ExprV
    decreases e,
{
    let sp = e.span;
    match e.node {
        ExpressionKind::Literal(l) => ExprV::Literal(sp, literal_v(l)),
        ExpressionKind::Unary(Unary::Negate(inner)) => ExprV::Negate(sp, Box::new(expr_v(*inner))),
        ExpressionKind::Unary(Unary::Not(inner)) => ExprV::Not(sp, Box::new(expr_v(*inner))),
        ExpressionKind::Binary(b) => ExprV::Binary(
            sp,
            Box::new(expr_v(*b.left)),
            b.operator,
            Box::new(expr_v(*b.right)),
        ),
        ExpressionKind::Variable(name) => ExprV::Variable(sp, name),
        ExpressionKind::Assign(a) => ExprV::Assign(sp, a.target, Box::new(expr_v(*a.value))),
        ExpressionKind::Logical(l) => ExprV::Logical(
            sp,
            Box::new(expr_v(*l.left)),
            l.operator,
            Box::new(expr_v(*l.right)),
        ),
        ExpressionKind::Call(c) => ExprV::Call(sp, Box::new(expr_v(*c.callee)), exprs_v(c.arguments@)),
        ExpressionKind::Get(g) => ExprV::Get(sp, Box::new(expr_v(*g.object)), g.name),
        ExpressionKind::SetProperty(s) => ExprV::SetProperty(
            sp,
            Box::new(expr_v(*s.object)),
            s.name,
            Box::new(expr_v(*s.value)),
        ),
        ExpressionKind::This => ExprV::This(sp),
        ExpressionKind::Super(name) => ExprV::Super(sp, name),
    }
}

/// The views of a sequence of expressions.
pub open spec fn exprs_v(es: Seq<Expression>) -> Seq<ExprV>
    decreases es,
{
    if es.len() == 0 {
        Seq::empty()
    } else {
        exprs_v(es.drop_last()).push(expr_v(es.last()))
    }
}

pub open spec fn opt_expr_v(e: Option<Expression>) -> Option<ExprV>
    decreases e,
{
    match e {
        Some(x) => Some(expr_v(x)),
        None => None,
    }
}

/// The view of a statement.
pub open spec fn stmt_v(s: Statement) -> StmtV
    decreases s,
{
    let sp = s.span;
    match s.node {
        StatementKind::Expression(e) => StmtV::Expression(sp, expr_v(e)),
        StatementKind::Print(e) => StmtV::Print(sp, expr_v(e)),
        StatementKind::Return(e) => StmtV::Return(sp, opt_expr_v(e)),
        StatementKind::Block(ds) => StmtV::Block(sp, decls_v(ds@)),
        StatementKind::If(i) => StmtV::If(
            sp,
            expr_v(i.condition),
            Box::new(stmt_v(*i.then_branch)),
            match i.else_branch {
                Some(e) => Some(Box::new(stmt_v(*e))),
                None => None,
            },
        ),
        StatementKind::While(w) => StmtV::While(sp, expr_v(w.condition), Box::new(stmt_v(*w.body))),
    }
}

pub open spec fn function_v(f: Function) -> FunV
    decreases f,
{
    FunV { name: f.name, params: f.parameter_names@, body: Box::new(stmt_v(*f.body)) }
}

pub open spec fn methods_v(ms: Seq<Node<Function>>) -> Seq<(Span, FunV)>
    decreases ms,
{
    if ms.len() == 0 {
        Seq::empty()
    } else {
        methods_v(ms.drop_last()).push((ms.last().span, function_v(ms.last().node)))
    }
}

/// The view of a declaration.
pub open spec fn decl_v(d: Declaration) -> DeclV
    decreases d,
{
    let sp = d.span;
    match d.node {
        DeclarationKind::Statement(s) => DeclV::Statement(sp, stmt_v(s)),
        DeclarationKind::Var(v) => DeclV::Var(sp, v.identifier, opt_expr_v(v.initial)),
        DeclarationKind::Function(f) => DeclV::Function(sp, function_v(f)),
        DeclarationKind::Class(c) => DeclV::Class(sp, c.name, opt_expr_v(c.superclass), methods_v(c.methods@)),
    }
}

/// The views of a sequence of declarations.
pub open spec fn decls_v(ds: Seq<Declaration>) -> Seq<DeclV>
    decreases ds,
{
    if ds.len() == 0 {
        Seq::empty()
    } else {
        decls_v(ds.drop_last()).push(decl_v(ds.last()))
    }
}

/// The ids of all the nodes of an expression.
pub open spec fn expr_ids(e: Expression) -> Multiset<u64>
    decreases e,
{
    expr_kind_ids(e.node).insert(e.id)
}

/// The ids of all the nodes below an expression node of kind `k`.
pub open spec fn expr_kind_ids(k: ExpressionKind) -> Multiset<u64>
    decreases k,
{
    match k {
        ExpressionKind::Literal(_) => Multiset::empty(),
        ExpressionKind::Unary(Unary::Negate(inner)) => expr_ids(*inner),
        ExpressionKind::Unary(Unary::Not(inner)) => expr_ids(*inner),
        ExpressionKind::Binary(b) => expr_ids(*b.left).add(expr_ids(*b.right)),
        ExpressionKind::Variable(_) => Multiset::empty(),
        ExpressionKind::Assign(a) => expr_ids(*a.value),
        ExpressionKind::Logical(l) => expr_ids(*l.left).add(expr_ids(*l.right)),
        ExpressionKind::Call(c) => expr_ids(*c.callee).add(exprs_ids(c.arguments@)),
        ExpressionKind::Get(g) => expr_ids(*g.object),
        ExpressionKind::SetProperty(p) => expr_ids(*p.object).add(expr_ids(*p.value)),
        ExpressionKind::This => Multiset::empty(),
        ExpressionKind::Super(_) => Multiset::empty(),
    }
}

pub open spec fn exprs_ids(es: Seq<Expression>) -> Multiset<u64>
    decreases es,
{
    if es.len() == 0 {
        Multiset::empty()
    } else {
        exprs_ids(es.drop_last()).add(expr_ids(es.last()))
    }
}

pub open spec fn opt_expr_ids(e: Option<Expression>) -> Multiset<u64>
    decreases e,
{
    match e {
        Some(x) => expr_ids(x),
        None => Multiset::empty(),
    }
}

/// The ids of all the nodes of a statement.
pub open spec fn stmt_ids(s: Statement) -> Multiset<u64>
    decreases s,
{
    let below = match s.node {
        StatementKind::Expression(e) => expr_ids(e),
        StatementKind::Print(e) => expr_ids(e),
        StatementKind::Return(e) => opt_expr_ids(e),
        StatementKind::Block(ds) => decls_ids(ds@),
        StatementKind::If(i) => expr_ids(i.condition).add(stmt_ids(*i.then_branch)).add(
            match i.else_branch {
                Some(e) => stmt_ids(*e),
                None => Multiset::empty(),
            },
        ),
        StatementKind::While(w) => expr_ids(w.condition).add(stmt_ids(*w.body)),
    };
    below.insert(s.id)
}

pub open spec fn function_ids(f: Function) -> Multiset<u64>
    decreases f,
{
    stmt_ids(*f.body)
}

pub open spec fn methods_ids(ms: Seq<Node<Function>>) -> Multiset<u64>
    decreases ms,
{
    if ms.len() == 0 {
        Multiset::empty()
    } else {
        methods_ids(ms.drop_last()).add(function_ids(ms.last().node).insert(ms.last().id))
    }
}

/// The ids of all the nodes of a declaration.
pub open spec fn decl_ids(d: Declaration) -> Multiset<u64>
    decreases d,
{
    let below = match d.node {
        DeclarationKind::Statement(s) => stmt_ids(s),
        DeclarationKind::Var(v) => opt_expr_ids(v.initial),
        DeclarationKind::Function(f) => function_ids(f),
        DeclarationKind::Class(c) => opt_expr_ids(c.superclass).add(methods_ids(c.methods@)),
    };
    below.insert(d.id)
}

pub open spec fn decls_ids(ds: Seq<Declaration>) -> Multiset<u64>
    decreases ds,
{
    if ds.len() == 0 {
        Multiset::empty()
    } else {
        decls_ids(ds.drop_last()).add(decl_ids(ds.last()))
    }
}

pub proof fn lemma_exprs_ids_push(es: Seq<Expression>, e: Expression)
    ensures
        exprs_ids(es.push(e)) == exprs_ids(es).add(expr_ids(e)),
{
    assert(es.push(e).drop_last() =~= es);
}

pub proof fn lemma_decls_ids_push(ds: Seq<Declaration>, d: Declaration)
    ensures
        decls_ids(ds.push(d)) == decls_ids(ds).add(decl_ids(d)),
{
    assert(ds.push(d).drop_last() =~= ds);
}

/// `exprs_v` views each expression in turn.
pub proof fn lemma_exprs_v(es: Seq<Expression>)
    ensures
        exprs_v(es).len() == es.len(),
        forall|i: int| 0 <= i < es.len() ==> #[trigger] exprs_v(es)[i] == expr_v(es[i]),
    decreases es.len(),
{
    if es.len() > 0 {
        lemma_exprs_v(es.drop_last());
    }
}

pub proof fn lemma_exprs_v_push(es: Seq<Expression>, e: Expression)
    ensures
        exprs_v(es.push(e)) == exprs_v(es).push(expr_v(e)),
{
    assert(es.push(e).drop_last() =~= es);
}

/// `decls_v` views each declaration in turn.
pub proof fn lemma_decls_v(ds: Seq<Declaration>)
    ensures
        decls_v(ds).len() == ds.len(),
        forall|i: int| 0 <= i < ds.len() ==> #[trigger] decls_v(ds)[i] == decl_v(ds[i]),
    decreases ds.len(),
{
    if ds.len() > 0 {
        lemma_decls_v(ds.drop_last());
    }
}

pub proof fn lemma_decls_v_push(ds: Seq<Declaration>, d: Declaration)
    ensures
        decls_v(ds.push(d)) == decls_v(ds).push(decl_v(d)),
{
    assert(ds.push(d).drop_last() =~= ds);
}

/// A view keeps the node's span.
pub proof fn lemma_expr_v_span(e: Expression)
    ensures
        expr_v(e).span() == e.span,
{
}

pub proof fn lemma_stmt_v_span(s: Statement)
    ensures
        stmt_v(s).span() == s.span,
{
}

pub proof fn lemma_decl_v_span(d: Declaration)
    ensures
        decl_v(d).span() == d.span,
{
}

/// A node with the value of `e` at span `sp` views as `e` with its span
/// replaced.
pub proof fn lemma_expr_v_respan(e: Expression, sp: Span)
    ensures
        forall|id: u64| #[trigger] expr_v(Node { id, span: sp, node: e.node }) == expr_v(e).with_span(sp),
{
}

} // verus!
