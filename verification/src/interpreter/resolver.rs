//! Resolution: for each variable reference, how many scopes out the
//! variable it names was declared.
use crate::parser::ast::{
    Assign, Call, Class, Declaration, DeclarationKind, Expression, ExpressionKind, Function, Get,
    If, SetProperty, Statement, StatementKind, Unary, Var, While,
};
use crate::parser::diagnostic::{Diagnostic, Severity};
use crate::parser::node::{Node, NodeId};
use crate::parser::span::Span;
use crate::parser::ast::{decl_v, decls_v, expr_v, exprs_v, function_v, methods_v, stmt_v};
use crate::parser::names::{
    decl_names_ok, decls_names_ok, expr_names_ok, exprs_names_ok, fun_names_ok, lemma_decls_push,
    lemma_exprs_push, lemma_names_program, methods_names_ok, spans_ok, stmt_names_ok,
};
use crate::parser::statements::errors_are;
use crate::parser::lexing::scan_finishes;
use crate::parser::{lemma_scanned_idents_ok, parse_result_is, scanned_tokens};
use crate::text::byte_len;
use std::collections::HashMap;
use vstd::prelude::*;

verus! {

broadcast use vstd::std_specs::hash::group_hash_axioms;

/// For each resolved expression node, the number of scopes between it and
/// the scope where its variable was declared.
#[derive(Debug)]
pub struct Resolutions {
    map: HashMap<NodeId, u32>,
}

impl Resolutions {
    pub closed spec fn distances(&self) -> Map<NodeId, u32> {
        self.map@
    }

    pub fn new() -> (r: Self)
        ensures
            r.distances() == Map::<NodeId, u32>::empty(),
    {
        Self { map: HashMap::new() }
    }

    /// The distance recorded for `node`, if any.
    pub fn resolve<T>(&self, node: &Node<T>) -> (r: Option<u32>)
        ensures
            r == (if self.distances().contains_key(node.id) {
                Some(self.distances()[node.id])
            } else {
                None
            }),
    {
        let id = node.id();
        match self.map.get(&id) {
            Some(d) => Some(*d),
            None => None,
        }
    }

    fn set<T>(&mut self, node: &Node<T>, distance: u32)
        ensures
            final(self).distances() == old(self).distances().insert(node.id, distance),
    {
        let id = node.id();
        self.map.insert(id, distance);
    }
}

/// The table that recording each of `records` in turn, oldest first, into an
/// empty one gives.
pub open spec fn recorded(records: Seq<(NodeId, u32)>) -> Map<NodeId, u32>
    decreases records.len(),
{
    if records.len() == 0 {
        Map::empty()
    } else {
        recorded(records.drop_last()).insert(records.last().0, records.last().1)
    }
}

/// The distance of the last of `records` made for node id `id`, if any.
pub open spec fn last_record(records: Seq<(NodeId, u32)>, id: NodeId) -> Option<u32>
    decreases records.len(),
{
    if records.len() == 0 {
        None
    } else if records.last().0 == id {
        Some(records.last().1)
    } else {
        last_record(records.drop_last(), id)
    }
}

/// A table made by `Resolutions::new` and then the records `records`
/// resolves a node to the distance last recorded for its id, and to
/// nothing where none was recorded.
pub proof fn law_resolve_gives_the_last_record(records: Seq<(NodeId, u32)>, id: NodeId)
    ensures
        (if recorded(records).contains_key(id) {
            Some(recorded(records)[id])
        } else {
            None
        }) == last_record(records, id),
    decreases records.len(),
{
    if records.len() > 0 {
        law_resolve_gives_the_last_record(records.drop_last(), id);
    }
}

/// The names declared in one scope, each with whether it is defined yet.
/// Later entries take precedence over earlier ones.
#[derive(Debug)]
pub struct Scope {
    entries: Vec<(String, bool)>,
}

/// The names that `es` declares, later entries winning.
pub open spec fn entries_map(es: Seq<(String, bool)>) -> Map<Seq<char>, bool>
    decreases es.len(),
{
    if es.len() == 0 {
        Map::empty()
    } else {
        entries_map(es.drop_last()).insert(es.last().0@, es.last().1)
    }
}

impl View for Scope {
    type V = Map<Seq<char>, bool>;

    closed spec fn view(&self) -> Map<Seq<char>, bool> {
        entries_map(self.entries@)
    }
}

impl Scope {
    fn new() -> (r: Self)
        ensures
            r@ == Map::<Seq<char>, bool>::empty(),
    {
        Scope { entries: Vec::new() }
    }

    fn get(&self, name: &String) -> (r: Option<bool>)
        ensures
            r == (if self@.contains_key(name@) {
                Some(self@[name@])
            } else {
                None
            }),
    {
        let ghost es = self.entries@;
        let ghost k = name@;
        let mut i = self.entries.len();
        assert(es.take(es.len() as int) =~= es);
        while i > 0
            invariant
                i <= es.len(),
                es == self.entries@,
                k == name@,
                entries_map(es).contains_key(k) == entries_map(es.take(i as int)).contains_key(k),
                entries_map(es).contains_key(k) ==> entries_map(es)[k] == entries_map(es.take(i as int))[k],
            decreases i,
        {
            assert(es.take(i as int).drop_last() =~= es.take(i as int - 1));
            i = i - 1;
            if self.entries[i].0 == *name {
                return Some(self.entries[i].1);
            }
        }
        assert(es.take(0) =~= Seq::<(String, bool)>::empty());
        None
    }

    fn insert(&mut self, name: String, defined: bool)
        ensures
            final(self)@ == old(self)@.insert(name@, defined),
    {
        let ghost before = self.entries@;
        self.entries.push((name, defined));
        assert(self.entries@.drop_last() =~= before);
    }
}

/// What kind of function the resolver is inside.
#[derive(Debug, Clone, Copy, PartialEq, Eq, Structural)]
pub enum FunctionType {
    /// Not inside any function.
    TopLevel,
    Function,
    Method,
    Initializer,
}

/// What kind of class the resolver is inside.
#[derive(Debug, Clone, Copy, PartialEq, Eq, Structural)]
pub enum ClassType {
    /// Not inside any class.
    NoClass,
    Class,
    Subclass,
}

/// The resolver's state as plain values.
pub struct ResolverState {
    /// The scopes from the outermost in; each maps a name to whether it is
    /// defined yet.
    pub scopes: Seq<Map<Seq<char>, bool>>,
    pub function: FunctionType,
    pub class: ClassType,
    /// The errors found so far: span and message.
    pub errors: Seq<(Span, Seq<char>)>,
    pub distances: Map<NodeId, u32>,
}

/// How many scopes out from the innermost one `name` is declared, if it is.
pub open spec fn innermost(scopes: Seq<Map<Seq<char>, bool>>, name: Seq<char>) -> Option<nat>
    decreases scopes.len(),
{
    if scopes.len() == 0 {
        None
    } else if scopes.last().contains_key(name) {
        Some(0)
    } else {
        match innermost(scopes.drop_last(), name) {
            Some(d) => Some(d + 1),
            None => None,
        }
    }
}

/// A name resolves to the nearest scope that declares it: the scope `d`
/// out from the innermost one declares the name, and no scope nearer does;
/// a name that no scope declares is not resolved at all.
pub proof fn law_innermost_is_nearest(scopes: Seq<Map<Seq<char>, bool>>, name: Seq<char>)
    ensures
        match innermost(scopes, name) {
            Some(d) => {
                &&& d < scopes.len()
                &&& scopes[scopes.len() - 1 - d].contains_key(name)
                &&& forall|k: int| 0 <= k < d ==> !(#[trigger] scopes[scopes.len() - 1 - k]).contains_key(name)
            },
            None => forall|i: int| 0 <= i < scopes.len() ==> !(#[trigger] scopes[i]).contains_key(name),
        },
    decreases scopes.len(),
{
    if scopes.len() > 0 && !scopes.last().contains_key(name) {
        let rest = scopes.drop_last();
        law_innermost_is_nearest(rest, name);
        match innermost(rest, name) {
            Some(d) => {
                assert(scopes[scopes.len() - 1 - (d + 1)] == rest[rest.len() - 1 - d]);
                assert forall|k: int| 0 <= k < d + 1 implies !(#[trigger] scopes[scopes.len() - 1 - k]).contains_key(name) by {
                    if k > 0 {
                        assert(scopes[scopes.len() - 1 - k] == rest[rest.len() - 1 - (k - 1)]);
                    }
                }
            },
            None => {
                assert forall|i: int| 0 <= i < scopes.len() implies !(#[trigger] scopes[i]).contains_key(name) by {
                    if i < rest.len() {
                        assert(scopes[i] == rest[i]);
                    }
                }
            },
        }
    }
}

/// The name that `span` covers in `src`; `None` where slicing `src` there
/// would panic.
pub open spec fn name_at(span: Span, src: Seq<char>) -> Option<Seq<char>> {
    if span.valid_in(src) {
        Some(span.text_in(src))
    } else {
        None
    }
}

impl ResolverState {
    /// The state at the start: no scopes, no errors, the given distances.
    pub open spec fn initial(distances: Map<NodeId, u32>) -> ResolverState {
        ResolverState {
            scopes: Seq::empty(),
            function: FunctionType::TopLevel,
            class: ClassType::NoClass,
            errors: Seq::empty(),
            distances,
        }
    }

    pub open spec fn error(self, span: Span, message: Seq<char>) -> ResolverState {
        ResolverState { errors: self.errors.push((span, message)), ..self }
    }

    pub open spec fn begin(self) -> ResolverState {
        ResolverState { scopes: self.scopes.push(Map::empty()), ..self }
    }

    pub open spec fn end(self) -> ResolverState {
        if self.scopes.len() > 0 {
            ResolverState { scopes: self.scopes.drop_last(), ..self }
        } else {
            self
        }
    }

    /// Sets `name` in the innermost scope, if there is one.
    pub open spec fn set_name(self, name: Seq<char>, defined: bool) -> ResolverState {
        if self.scopes.len() > 0 {
            ResolverState {
                scopes: self.scopes.update(
                    self.scopes.len() - 1,
                    self.scopes.last().insert(name, defined),
                ),
                ..self
            }
        } else {
            self
        }
    }

    /// Declares `name` in the innermost scope, reporting at `span` a name
    /// that scope already has.
    pub open spec fn declare(self, span: Span, name: Seq<char>) -> ResolverState {
        if self.scopes.len() > 0 && self.scopes.last().contains_key(name) {
            self.error(span, "Already a variable with this name in this scope."@).set_name(name, false)
        } else {
            self.set_name(name, false)
        }
    }

    pub open spec fn define(self, name: Seq<char>) -> ResolverState {
        self.set_name(name, true)
    }

    /// Records for node `id` how far out `name` is declared, if it is.
    pub open spec fn resolve_local(self, id: NodeId, name: Seq<char>) -> ResolverState {
        match innermost(self.scopes, name) {
            Some(d) => ResolverState { distances: self.distances.insert(id, d as u32), ..self },
            None => self,
        }
    }

    pub open spec fn in_function(self, f: FunctionType) -> ResolverState {
        ResolverState { function: f, ..self }
    }

    pub open spec fn in_class(self, c: ClassType) -> ResolverState {
        ResolverState { class: c, ..self }
    }
}

/// Resolving `e` from state `st`; `None` where the resolver would panic.
pub open spec fn res_expr(st: ResolverState, e: Expression, src: Seq<char>) -> Option<ResolverState>
    decreases e,
{
    match e.node {
        ExpressionKind::Variable(sp) => match name_at(sp, src) {
            Some(name) => {
                let st1 = if st.scopes.len() > 0 && st.scopes.last().contains_key(name)
                    && !st.scopes.last()[name] {
                    st.error(e.span, "Can't read local variable in its own initializer."@)
                } else {
                    st
                };
                Some(st1.resolve_local(e.id, name))
            },
            None => None,
        },
        ExpressionKind::Assign(a) => match res_expr(st, *a.value, src) {
            Some(st1) => match name_at(a.target, src) {
                Some(name) => Some(st1.resolve_local(e.id, name)),
                None => None,
            },
            None => None,
        },
        ExpressionKind::Call(c) => match res_expr(st, *c.callee, src) {
            Some(st1) => res_exprs(st1, c.arguments@, src),
            None => None,
        },
        ExpressionKind::Logical(l) => match res_expr(st, *l.left, src) {
            Some(st1) => res_expr(st1, *l.right, src),
            None => None,
        },
        ExpressionKind::Binary(b) => match res_expr(st, *b.left, src) {
            Some(st1) => res_expr(st1, *b.right, src),
            None => None,
        },
        ExpressionKind::Unary(Unary::Negate(x)) => res_expr(st, *x, src),
        ExpressionKind::Unary(Unary::Not(x)) => res_expr(st, *x, src),
        ExpressionKind::Literal(_) => Some(st),
        ExpressionKind::Get(g) => res_expr(st, *g.object, src),
        ExpressionKind::SetProperty(s) => match res_expr(st, *s.object, src) {
            Some(st1) => res_expr(st1, *s.value, src),
            None => None,
        },
        ExpressionKind::This => if st.class != ClassType::Class {
            Some(st.error(e.span, "Can't use 'this' outside of a class."@))
        } else {
            Some(st.resolve_local(e.id, "this"@))
        },
        ExpressionKind::Super(_) => {
            let st1 = match st.class {
                ClassType::NoClass => st.error(e.span, "Can't use 'super' outside of a class."@),
                ClassType::Class => st.error(e.span, "Can't use 'super' in a class with no superclass."@),
                ClassType::Subclass => st,
            };
            Some(st1.resolve_local(e.id, "super"@))
        },
    }
}

/// Resolving the expressions `es` in turn.
pub open spec fn res_exprs(st: ResolverState, es: Seq<Expression>, src: Seq<char>) -> Option<ResolverState>
    decreases es,
{
    if es.len() == 0 {
        Some(st)
    } else {
        match res_exprs(st, es.drop_last(), src) {
            Some(st1) => res_expr(st1, es.last(), src),
            None => None,
        }
    }
}

/// Resolving statement `s`.
pub open spec fn res_stmt(st: ResolverState, s: Statement, src: Seq<char>) -> Option<ResolverState>
    decreases s,
{
    match s.node {
        StatementKind::Block(ds) => match res_decls(st.begin(), ds@, src) {
            Some(st1) => Some(st1.end()),
            None => None,
        },
        StatementKind::Expression(e) => res_expr(st, e, src),
        StatementKind::Print(e) => res_expr(st, e, src),
        StatementKind::Return(x) => {
            let st1 = if st.function == FunctionType::TopLevel {
                st.error(s.span, "Can't return from top-level code."@)
            } else {
                st
            };
            let st2 = if st1.function == FunctionType::Initializer && x is Some {
                st1.error(s.span, "Can't return a value from an initializer."@)
            } else {
                st1
            };
            match x {
                Some(e) => res_expr(st2, e, src),
                None => Some(st2),
            }
        },
        StatementKind::While(w) => match res_expr(st, w.condition, src) {
            Some(st1) => res_stmt(st1, *w.body, src),
            None => None,
        },
        StatementKind::If(i) => match res_expr(st, i.condition, src) {
            Some(st1) => match res_stmt(st1, *i.then_branch, src) {
                Some(st2) => match i.else_branch {
                    Some(b) => res_stmt(st2, *b, src),
                    None => Some(st2),
                },
                None => None,
            },
            None => None,
        },
    }
}

/// Declaring and defining the parameters `ps` in turn.
pub open spec fn res_params(st: ResolverState, ps: Seq<Span>, src: Seq<char>) -> Option<ResolverState>
    decreases ps.len(),
{
    if ps.len() == 0 {
        Some(st)
    } else {
        match res_params(st, ps.drop_last(), src) {
            Some(st1) => match name_at(ps.last(), src) {
                Some(n) => Some(st1.declare(ps.last(), n).define(n)),
                None => None,
            },
            None => None,
        }
    }
}

/// Resolving a function's parameters and body in a scope of their own. The
/// body must be a block.
pub open spec fn res_function(st: ResolverState, f: Function, src: Seq<char>) -> Option<ResolverState>
    decreases f,
{
    match res_params(st.begin(), f.parameter_names@, src) {
        Some(st1) => match f.body.node {
            StatementKind::Block(ds) => match res_decls(st1, ds@, src) {
                Some(st2) => Some(st2.end()),
                None => None,
            },
            _ => None,
        },
        None => None,
    }
}

/// Resolving the methods `ms` of a class in turn; a method named `init` is
/// an initializer.
pub open spec fn res_methods(st: ResolverState, ms: Seq<Node<Function>>, src: Seq<char>) -> Option<ResolverState>
    decreases ms,
{
    if ms.len() == 0 {
        Some(st)
    } else {
        match res_methods(st, ms.drop_last(), src) {
            Some(st1) => match name_at(ms.last().node.name, src) {
                Some(mn) => {
                    let kind = if mn == "init"@ {
                        FunctionType::Initializer
                    } else {
                        FunctionType::Method
                    };
                    match res_function(st1.in_function(kind), ms.last().node, src) {
                        Some(st2) => Some(st2.in_function(st1.function)),
                        None => None,
                    }
                },
                None => None,
            },
            None => None,
        }
    }
}

/// The state after a class's superclass, and whether it has one.
pub open spec fn res_superclass(st: ResolverState, class_name: Seq<char>, sup: Option<Expression>, src: Seq<char>) -> Option<(ResolverState, bool)>
    decreases sup,
{
    match sup {
        Some(x) => {
            let checked = match x.node {
                ExpressionKind::Variable(sp) => match name_at(sp, src) {
                    Some(sn) => Some(if sn == class_name {
                        st.error(x.span, "A class can't inherit from itself"@)
                    } else {
                        st
                    }),
                    None => None,
                },
                _ => Some(st),
            };
            match checked {
                Some(st1) => match res_expr(st1.in_class(ClassType::Subclass), x, src) {
                    Some(st2) => Some((st2, true)),
                    None => None,
                },
                None => None,
            }
        },
        None => Some((st, false)),
    }
}

/// Resolving a class declared at `span`.
pub open spec fn res_class(st: ResolverState, span: Span, c: Class, src: Seq<char>) -> Option<ResolverState>
    decreases c,
{
    match name_at(c.name, src) {
        Some(cname) => {
            let st1 = st.in_class(ClassType::Class).declare(span, cname).define(cname);
            match res_superclass(st1, cname, c.superclass, src) {
                Some((st2, has_super)) => {
                    let st3 = if has_super {
                        st2.begin().define("super"@)
                    } else {
                        st2
                    };
                    match res_methods(st3.begin().define("this"@), c.methods@, src) {
                        Some(st4) => {
                            let st5 = if has_super {
                                st4.end().end()
                            } else {
                                st4.end()
                            };
                            Some(st5.in_class(st.class))
                        },
                        None => None,
                    }
                },
                None => None,
            }
        },
        None => None,
    }
}

/// Resolving declaration `d`.
pub open spec fn res_decl(st: ResolverState, d: Declaration, src: Seq<char>) -> Option<ResolverState>
    decreases d,
{
    match d.node {
        DeclarationKind::Statement(s) => res_stmt(st, s, src),
        DeclarationKind::Function(f) => match name_at(f.name, src) {
            Some(name) => {
                let st1 = st.declare(d.span, name).define(name);
                match res_function(st1.in_function(FunctionType::Function), f, src) {
                    Some(st2) => Some(st2.in_function(st1.function)),
                    None => None,
                }
            },
            None => None,
        },
        DeclarationKind::Class(c) => res_class(st, d.span, c, src),
        DeclarationKind::Var(v) => match name_at(v.identifier, src) {
            Some(name) => {
                let st1 = st.declare(d.span, name);
                match v.initial {
                    Some(e) => match res_expr(st1, e, src) {
                        Some(st2) => Some(st2.define(name)),
                        None => None,
                    },
                    None => Some(st1.define(name)),
                }
            },
            None => None,
        },
    }
}

/// Resolving the declarations `ds` in turn.
pub open spec fn res_decls(st: ResolverState, ds: Seq<Declaration>, src: Seq<char>) -> Option<ResolverState>
    decreases ds,
{
    if ds.len() == 0 {
        Some(st)
    } else {
        match res_decls(st, ds.drop_last(), src) {
            Some(st1) => res_decl(st1, ds.last(), src),
            None => None,
        }
    }
}

pub proof fn lemma_res_exprs_prefix(st: ResolverState, es: Seq<Expression>, i: int, src: Seq<char>)
    requires
        0 <= i <= es.len(),
        res_exprs(st, es, src) is Some,
    ensures
        res_exprs(st, es.take(i), src) is Some,
    decreases es.len(),
{
    if i < es.len() {
        assert(es.drop_last().take(i) =~= es.take(i));
        lemma_res_exprs_prefix(st, es.drop_last(), i, src);
    } else {
        assert(es.take(i) =~= es);
    }
}

pub proof fn lemma_res_decls_prefix(st: ResolverState, ds: Seq<Declaration>, i: int, src: Seq<char>)
    requires
        0 <= i <= ds.len(),
        res_decls(st, ds, src) is Some,
    ensures
        res_decls(st, ds.take(i), src) is Some,
    decreases ds.len(),
{
    if i < ds.len() {
        assert(ds.drop_last().take(i) =~= ds.take(i));
        lemma_res_decls_prefix(st, ds.drop_last(), i, src);
    } else {
        assert(ds.take(i) =~= ds);
    }
}

pub proof fn lemma_res_params_prefix(st: ResolverState, ps: Seq<Span>, i: int, src: Seq<char>)
    requires
        0 <= i <= ps.len(),
        res_params(st, ps, src) is Some,
    ensures
        res_params(st, ps.take(i), src) is Some,
    decreases ps.len(),
{
    if i < ps.len() {
        assert(ps.drop_last().take(i) =~= ps.take(i));
        lemma_res_params_prefix(st, ps.drop_last(), i, src);
    } else {
        assert(ps.take(i) =~= ps);
    }
}

pub proof fn lemma_res_methods_prefix(st: ResolverState, ms: Seq<Node<Function>>, i: int, src: Seq<char>)
    requires
        0 <= i <= ms.len(),
        res_methods(st, ms, src) is Some,
    ensures
        res_methods(st, ms.take(i), src) is Some,
    decreases ms.len(),
{
    if i < ms.len() {
        assert(ms.drop_last().take(i) =~= ms.take(i));
        lemma_res_methods_prefix(st, ms.drop_last(), i, src);
    } else {
        assert(ms.take(i) =~= ms);
    }
}

/// Walks a program and records, for each variable reference, how many
/// scopes out the variable it names was declared.
#[derive(Debug)]
pub struct Resolver<'a> {
    mapping: Resolutions,
    source: &'a str,
    scopes: Vec<Scope>,
    current_function: FunctionType,
    current_class: ClassType,
    diagnostics: Vec<Diagnostic>,
}

impl<'a> Resolver<'a> {
    pub closed spec fn state(&self) -> ResolverState {
        ResolverState {
            scopes: self.scopes@.map_values(|sc: Scope| sc@),
            function: self.current_function,
            class: self.current_class,
            errors: self.diagnostics@.map_values(|d: Diagnostic| (d.span, d.message@)),
            distances: self.mapping.distances(),
        }
    }

    /// Every diagnostic found so far is an error.
    pub closed spec fn wf(&self) -> bool {
        forall|i: int| 0 <= i < self.diagnostics@.len() ==> (#[trigger] self.diagnostics@[i]).severity == Severity::Error
    }

    pub closed spec fn src(&self) -> Seq<char> {
        self.source@
    }

    /// A resolver that adds to `resolutions`, for the program in `source`.
    pub fn new(resolutions: Resolutions, source: &'a str) -> (r: Self)
        ensures
            r.wf(),
            r.state() == ResolverState::initial(resolutions.distances()),
            r.src() == source@,
    {
        let r = Self {
            mapping: resolutions,
            source,
            scopes: Vec::new(),
            current_function: FunctionType::TopLevel,
            current_class: ClassType::NoClass,
            diagnostics: Vec::new(),
        };
        assert(r.state().scopes =~= Seq::<Map<Seq<char>, bool>>::empty());
        assert(r.state().errors =~= Seq::<(Span, Seq<char>)>::empty());
        r
    }

    /// Resolves every declaration of `program`.
    pub fn resolve(&mut self, program: &[Declaration])
        requires
            old(self).wf(),
            res_decls(old(self).state(), program@, old(self).src()) is Some,
        ensures
            final(self).wf(),
            final(self).src() == old(self).src(),
            Some(final(self).state()) == res_decls(old(self).state(), program@, old(self).src()),
    {
        self.resolve_declarations(program);
    }

    /// The resolutions and the errors found.
    pub fn finish(self) -> (r: (Resolutions, Vec<Diagnostic>))
        requires
            self.wf(),
        ensures
            r.0.distances() == self.state().distances,
            errors_are(r.1@, self.state().errors),
    {
        (self.mapping, self.diagnostics)
    }

    fn report(&mut self, span: Span, message: &str)
        requires
            old(self).wf(),
        ensures
            final(self).wf(),
            final(self).src() == old(self).src(),
            final(self).state() == old(self).state().error(span, message@),
    {
        let ghost before = self.diagnostics@;
        self.diagnostics.push(Diagnostic::error(span, message));
        assert(self.diagnostics@.map_values(|d: Diagnostic| (d.span, d.message@)) =~= before.map_values(
            |d: Diagnostic| (d.span, d.message@),
        ).push((span, message@)));
    }

    fn begin_scope(&mut self)
        requires
            old(self).wf(),
        ensures
            final(self).wf(),
            final(self).src() == old(self).src(),
            final(self).state() == old(self).state().begin(),
    {
        let ghost before = self.scopes@;
        self.scopes.push(Scope::new());
        assert(self.scopes@.map_values(|sc: Scope| sc@) =~= before.map_values(|sc: Scope| sc@).push(
            Map::empty(),
        ));
    }

    fn end_scope(&mut self)
        requires
            old(self).wf(),
        ensures
            final(self).wf(),
            final(self).src() == old(self).src(),
            final(self).state() == old(self).state().end(),
    {
        let ghost before = self.scopes@;
        if self.scopes.len() > 0 {
            let _ = self.scopes.pop();
            assert(self.scopes@.map_values(|sc: Scope| sc@) =~= before.map_values(|sc: Scope| sc@).drop_last());
        }
    }

    fn set_name(&mut self, name: String, defined: bool)
        requires
            old(self).wf(),
        ensures
            final(self).wf(),
            final(self).src() == old(self).src(),
            final(self).state() == old(self).state().set_name(name@, defined),
    {
        let ghost before = self.scopes@;
        if self.scopes.len() > 0 {
            let mut scope = self.scopes.pop().unwrap();
            scope.insert(name, defined);
            self.scopes.push(scope);
            assert(self.scopes@.map_values(|sc: Scope| sc@) =~= before.map_values(|sc: Scope| sc@).update(
                before.len() - 1,
                before.last()@.insert(name@, defined),
            ));
        }
    }

    /// Notes that `name` is about to be defined in the innermost scope.
    fn declare(&mut self, span: Span, name: &String)
        requires
            old(self).wf(),
        ensures
            final(self).wf(),
            final(self).src() == old(self).src(),
            final(self).state() == old(self).state().declare(span, name@),
    {
        let n = self.scopes.len();
        if n > 0 {
            if self.scopes[n - 1].get(name).is_some() {
                self.report(span, "Already a variable with this name in this scope.");
            }
        }
        self.set_name(name.clone(), false);
    }

    /// Marks `name` defined in the innermost scope.
    fn define(&mut self, name: &String)
        requires
            old(self).wf(),
        ensures
            final(self).wf(),
            final(self).src() == old(self).src(),
            final(self).state() == old(self).state().define(name@),
    {
        self.set_name(name.clone(), true);
    }

    /// Records for `node` how many scopes out `name` is declared.
    fn resolve_local<T>(&mut self, node: &Node<T>, name: &String)
        requires
            old(self).wf(),
        ensures
            final(self).wf(),
            final(self).src() == old(self).src(),
            final(self).state() == old(self).state().resolve_local(node.id, name@),
    {
        let ghost sc = self.state().scopes;
        let n = self.scopes.len();
        let mut i = n;
        assert(sc.take(n as int) =~= sc);
        while i > 0
            invariant
                i <= n,
                n == self.scopes@.len(),
                sc == self.state().scopes,
                self.state() == old(self).state(),
                self.wf(),
                self.src() == old(self).src(),
                innermost(sc, name@) == (match innermost(sc.take(i as int), name@) {
                    Some(d) => Some(d + (n - i) as nat),
                    None => None::<nat>,
                }),
            decreases i,
        {
            assert(sc.take(i as int).drop_last() =~= sc.take(i as int - 1));
            assert(sc.take(i as int).last() == self.scopes@[i - 1]@);
            if self.scopes[i - 1].get(name).is_some() {
                #[verifier::truncate]
                let distance = (n - i) as u32;
                self.mapping.set(node, distance);
                return;
            }
            i = i - 1;
        }
        assert(sc.take(0) =~= Seq::<Map<Seq<char>, bool>>::empty());
    }

    /// The name that `span` covers in the source.
    fn name_of(&self, span: Span) -> (r: String)
        requires
            span.valid_in(self.src()),
        ensures
            r@ == span.text_in(self.src()),
    {
        span.in_source(self.source).to_owned()
    }
}

impl<'a> Resolver<'a> {
    fn resolve_declarations(&mut self, decls: &[Declaration])
        requires
            old(self).wf(),
            res_decls(old(self).state(), decls@, old(self).src()) is Some,
        ensures
            final(self).wf(),
            final(self).src() == old(self).src(),
            Some(final(self).state()) == res_decls(old(self).state(), decls@, old(self).src()),
        decreases decls@,
    {
        let ghost st0 = self.state();
        let mut i: usize = 0;
        assert(decls@.take(0) =~= Seq::<Declaration>::empty());
        while i < decls.len()
            invariant
                i <= decls@.len(),
                self.wf(),
                self.src() == old(self).src(),
                st0 == old(self).state(),
                res_decls(st0, decls@, self.src()) is Some,
                Some(self.state()) == res_decls(st0, decls@.take(i as int), self.src()),
            decreases decls@.len() - i,
        {
            proof {
                lemma_res_decls_prefix(st0, decls@, i + 1, self.src());
                assert(decls@.take(i + 1).drop_last() =~= decls@.take(i as int));
            }
            self.resolve_declaration(&decls[i]);
            i = i + 1;
        }
        assert(decls@.take(i as int) =~= decls@);
    }

    fn resolve_declaration(&mut self, decl: &Declaration)
        requires
            old(self).wf(),
            res_decl(old(self).state(), *decl, old(self).src()) is Some,
        ensures
            final(self).wf(),
            final(self).src() == old(self).src(),
            Some(final(self).state()) == res_decl(old(self).state(), *decl, old(self).src()),
        decreases decl,
    {
        match &decl.node {
            DeclarationKind::Statement(stmt) => self.resolve_statement(stmt),
            DeclarationKind::Function(fdecl) => {
                let name = self.name_of(fdecl.name);
                self.declare(decl.span, &name);
                self.define(&name);
                let enclosing_function = self.current_function;
                self.current_function = FunctionType::Function;
                self.resolve_function(fdecl);
                self.current_function = enclosing_function;
            },
            DeclarationKind::Class(klass) => self.resolve_class_declaration(decl.span, klass),
            DeclarationKind::Var(Var { identifier, initial }) => self.resolve_var_declaration(
                decl.span,
                *identifier,
                initial,
            ),
        }
    }

    fn resolve_statement(&mut self, stmt: &Statement)
        requires
            old(self).wf(),
            res_stmt(old(self).state(), *stmt, old(self).src()) is Some,
        ensures
            final(self).wf(),
            final(self).src() == old(self).src(),
            Some(final(self).state()) == res_stmt(old(self).state(), *stmt, old(self).src()),
        decreases stmt,
    {
        match &stmt.node {
            StatementKind::Block(decls) => {
                self.begin_scope();
                self.resolve_declarations(decls.as_slice());
                self.end_scope();
            },
            StatementKind::Expression(expr) => self.resolve_expression(expr),
            StatementKind::Print(expr) => self.resolve_expression(expr),
            StatementKind::Return(expr) => {
                if self.current_function == FunctionType::TopLevel {
                    self.report(stmt.span, "Can't return from top-level code.");
                }
                if self.current_function == FunctionType::Initializer && expr.is_some() {
                    self.report(stmt.span, "Can't return a value from an initializer.");
                }
                match expr {
                    Some(e) => self.resolve_expression(e),
                    None => {},
                }
            },
            StatementKind::While(While { condition, body }) => {
                self.resolve_expression(condition);
                self.resolve_statement(body);
            },
            StatementKind::If(If { condition, then_branch, else_branch }) => {
                self.resolve_expression(condition);
                self.resolve_statement(then_branch);
                match else_branch {
                    Some(else_stmt) => self.resolve_statement(else_stmt),
                    None => {},
                }
            },
        }
    }

    fn resolve_var_declaration(&mut self, span: Span, identifier: Span, initial: &Option<Expression>)
        requires
            old(self).wf(),
            res_decl(
                old(self).state(),
                Node { id: 0, span, node: DeclarationKind::Var(Var { identifier, initial: *initial }) },
                old(self).src(),
            ) is Some,
        ensures
            final(self).wf(),
            final(self).src() == old(self).src(),
            Some(final(self).state()) == res_decl(
                old(self).state(),
                Node { id: 0, span, node: DeclarationKind::Var(Var { identifier, initial: *initial }) },
                old(self).src(),
            ),
        decreases initial,
    {
        let name = self.name_of(identifier);
        self.declare(span, &name);
        match initial {
            Some(initializer) => self.resolve_expression(initializer),
            None => {},
        }
        self.define(&name);
    }

    fn resolve_function(&mut self, func: &Function)
        requires
            old(self).wf(),
            res_function(old(self).state(), *func, old(self).src()) is Some,
        ensures
            final(self).wf(),
            final(self).src() == old(self).src(),
            Some(final(self).state()) == res_function(old(self).state(), *func, old(self).src()),
        decreases func,
    {
        self.begin_scope();
        let ghost st0 = self.state();
        let mut i: usize = 0;
        assert(func.parameter_names@.take(0) =~= Seq::<Span>::empty());
        while i < func.parameter_names.len()
            invariant
                i <= func.parameter_names@.len(),
                self.wf(),
                self.src() == old(self).src(),
                st0 == old(self).state().begin(),
                res_params(st0, func.parameter_names@, self.src()) is Some,
                Some(self.state()) == res_params(st0, func.parameter_names@.take(i as int), self.src()),
            decreases func.parameter_names@.len() - i,
        {
            proof {
                lemma_res_params_prefix(st0, func.parameter_names@, i + 1, self.src());
                assert(func.parameter_names@.take(i + 1).drop_last() =~= func.parameter_names@.take(i as int));
            }
            let param_span = func.parameter_names[i];
            let param_name = self.name_of(param_span);
            self.declare(param_span, &param_name);
            self.define(&param_name);
            i = i + 1;
        }
        assert(func.parameter_names@.take(i as int) =~= func.parameter_names@);
        match &func.body.node {
            StatementKind::Block(decls) => self.resolve_declarations(decls.as_slice()),
            _ => {},
        }
        self.end_scope();
    }

    fn resolve_methods(&mut self, methods: &Vec<Node<Function>>)
        requires
            old(self).wf(),
            res_methods(old(self).state(), methods@, old(self).src()) is Some,
        ensures
            final(self).wf(),
            final(self).src() == old(self).src(),
            Some(final(self).state()) == res_methods(old(self).state(), methods@, old(self).src()),
        decreases methods@,
    {
        let ghost st0 = self.state();
        let mut i: usize = 0;
        assert(methods@.take(0) =~= Seq::<Node<Function>>::empty());
        while i < methods.len()
            invariant
                i <= methods@.len(),
                self.wf(),
                self.src() == old(self).src(),
                st0 == old(self).state(),
                res_methods(st0, methods@, self.src()) is Some,
                Some(self.state()) == res_methods(st0, methods@.take(i as int), self.src()),
            decreases methods@.len() - i,
        {
            proof {
                lemma_res_methods_prefix(st0, methods@, i + 1, self.src());
                assert(methods@.take(i + 1).drop_last() =~= methods@.take(i as int));
            }
            let meth = &methods[i];
            let enclosing_function = self.current_function;
            let method_name = self.name_of(meth.node.name);
            self.current_function = if method_name == "init".to_owned() {
                FunctionType::Initializer
            } else {
                FunctionType::Method
            };
            self.resolve_function(&meth.node);
            self.current_function = enclosing_function;
            i = i + 1;
        }
        assert(methods@.take(i as int) =~= methods@);
    }

    fn resolve_class_declaration(&mut self, span: Span, klass: &Class)
        requires
            old(self).wf(),
            res_class(old(self).state(), span, *klass, old(self).src()) is Some,
        ensures
            final(self).wf(),
            final(self).src() == old(self).src(),
            Some(final(self).state()) == res_class(old(self).state(), span, *klass, old(self).src()),
        decreases klass,
    {
        let enclosing_type = self.current_class;
        self.current_class = ClassType::Class;
        let class_name = self.name_of(klass.name);
        self.declare(span, &class_name);
        self.define(&class_name);
        let mut has_super = false;
        match &klass.superclass {
            Some(superclass) => {
                match &superclass.node {
                    ExpressionKind::Variable(super_span) => {
                        let super_name = self.name_of(*super_span);
                        if super_name == class_name {
                            self.report(superclass.span, "A class can't inherit from itself");
                        }
                    },
                    _ => {},
                }
                self.current_class = ClassType::Subclass;
                self.resolve_expression(superclass);
                has_super = true;
            },
            None => {},
        }
        if has_super {
            self.begin_scope();
            self.define(&"super".to_owned());
        }
        self.begin_scope();
        self.define(&"this".to_owned());
        self.resolve_methods(&klass.methods);
        self.end_scope();
        if has_super {
            self.end_scope();
        }
        self.current_class = enclosing_type;
    }

    fn resolve_expression(&mut self, expr: &Expression)
        requires
            old(self).wf(),
            res_expr(old(self).state(), *expr, old(self).src()) is Some,
        ensures
            final(self).wf(),
            final(self).src() == old(self).src(),
            Some(final(self).state()) == res_expr(old(self).state(), *expr, old(self).src()),
        decreases expr,
    {
        match &expr.node {
            ExpressionKind::Variable(ident_span) => {
                let name = self.name_of(*ident_span);
                let n = self.scopes.len();
                if n > 0 {
                    match self.scopes[n - 1].get(&name) {
                        Some(false) => self.report(
                            expr.span,
                            "Can't read local variable in its own initializer.",
                        ),
                        _ => {},
                    }
                }
                self.resolve_local(expr, &name);
            },
            ExpressionKind::Assign(Assign { target, value }) => {
                self.resolve_expression(value);
                let name = self.name_of(*target);
                self.resolve_local(expr, &name);
            },
            ExpressionKind::Call(Call { callee, arguments }) => {
                self.resolve_expression(callee);
                self.resolve_expressions(arguments);
            },
            ExpressionKind::Logical(logical) => {
                self.resolve_expression(&logical.left);
                self.resolve_expression(&logical.right);
            },
            ExpressionKind::Binary(binary) => {
                self.resolve_expression(&binary.left);
                self.resolve_expression(&binary.right);
            },
            ExpressionKind::Unary(unary) => match unary {
                Unary::Negate(inner) => self.resolve_expression(inner),
                Unary::Not(inner) => self.resolve_expression(inner),
            },
            ExpressionKind::Literal(_) => {},
            ExpressionKind::Get(Get { object, .. }) => {
                self.resolve_expression(object);
            },
            ExpressionKind::SetProperty(SetProperty { object, value, .. }) => {
                self.resolve_expression(object);
                self.resolve_expression(value);
            },
            ExpressionKind::This => {
                if self.current_class != ClassType::Class {
                    self.report(expr.span, "Can't use 'this' outside of a class.");
                    return;
                }
                self.resolve_local(expr, &"this".to_owned());
            },
            ExpressionKind::Super(_) => {
                match self.current_class {
                    ClassType::NoClass => self.report(expr.span, "Can't use 'super' outside of a class."),
                    ClassType::Class => self.report(
                        expr.span,
                        "Can't use 'super' in a class with no superclass.",
                    ),
                    ClassType::Subclass => {},
                }
                self.resolve_local(expr, &"super".to_owned());
            },
        }
    }

    fn resolve_expressions(&mut self, exprs: &Vec<Expression>)
        requires
            old(self).wf(),
            res_exprs(old(self).state(), exprs@, old(self).src()) is Some,
        ensures
            final(self).wf(),
            final(self).src() == old(self).src(),
            Some(final(self).state()) == res_exprs(old(self).state(), exprs@, old(self).src()),
        decreases exprs@,
    {
        let ghost st0 = self.state();
        let mut i: usize = 0;
        assert(exprs@.take(0) =~= Seq::<Expression>::empty());
        while i < exprs.len()
            invariant
                i <= exprs@.len(),
                self.wf(),
                self.src() == old(self).src(),
                st0 == old(self).state(),
                res_exprs(st0, exprs@, self.src()) is Some,
                Some(self.state()) == res_exprs(st0, exprs@.take(i as int), self.src()),
            decreases exprs@.len() - i,
        {
            proof {
                lemma_res_exprs_prefix(st0, exprs@, i + 1, self.src());
                assert(exprs@.take(i + 1).drop_last() =~= exprs@.take(i as int));
            }
            self.resolve_expression(&exprs[i]);
            i = i + 1;
        }
        assert(exprs@.take(i as int) =~= exprs@);
    }
}

/// What resolving `program` in `src` gives, starting from `distances`;
/// `None` where the resolver would panic.
pub open spec fn resolution(distances: Map<NodeId, u32>, program: Seq<Declaration>, src: Seq<char>) -> Option<ResolverState> {
    res_decls(ResolverState::initial(distances), program, src)
}

/// Resolves `program`, whose text is `source`, adding to `resolutions`;
/// returns the errors found.
pub fn resolve(resolutions: &mut Resolutions, program: &[Declaration], source: &str) -> (r: Vec<Diagnostic>)
    requires
        resolution(old(resolutions).distances(), program@, source@) is Some,
    ensures
        final(resolutions).distances() == resolution(old(resolutions).distances(), program@, source@).unwrap().distances,
        errors_are(r@, resolution(old(resolutions).distances(), program@, source@).unwrap().errors),
{
    let mut taken = Resolutions::new();
    std::mem::swap(&mut taken, resolutions);
    let mut resolver = Resolver::new(taken, source);
    resolver.resolve(program);
    let (mapping, diagnostics) = resolver.finish();
    *resolutions = mapping;
    diagnostics
}

/// Resolving an expression opens and closes no scope.
pub proof fn lemma_res_expr_scopes(st: ResolverState, e: Expression, src: Seq<char>)
    ensures
        res_expr(st, e, src) matches Some(st2) ==> st2.scopes == st.scopes,
    decreases e,
{
    match e.node {
        ExpressionKind::Assign(a) => lemma_res_expr_scopes(st, *a.value, src),
        ExpressionKind::Call(c) => {
            lemma_res_expr_scopes(st, *c.callee, src);
            if let Some(st1) = res_expr(st, *c.callee, src) {
                lemma_res_exprs_scopes(st1, c.arguments@, src);
            }
        },
        ExpressionKind::Logical(l) => {
            lemma_res_expr_scopes(st, *l.left, src);
            if let Some(st1) = res_expr(st, *l.left, src) {
                lemma_res_expr_scopes(st1, *l.right, src);
            }
        },
        ExpressionKind::Binary(b) => {
            lemma_res_expr_scopes(st, *b.left, src);
            if let Some(st1) = res_expr(st, *b.left, src) {
                lemma_res_expr_scopes(st1, *b.right, src);
            }
        },
        ExpressionKind::Unary(Unary::Negate(x)) => lemma_res_expr_scopes(st, *x, src),
        ExpressionKind::Unary(Unary::Not(x)) => lemma_res_expr_scopes(st, *x, src),
        ExpressionKind::Get(g) => lemma_res_expr_scopes(st, *g.object, src),
        ExpressionKind::SetProperty(sp) => {
            lemma_res_expr_scopes(st, *sp.object, src);
            if let Some(st1) = res_expr(st, *sp.object, src) {
                lemma_res_expr_scopes(st1, *sp.value, src);
            }
        },
        _ => {},
    }
}

pub proof fn lemma_res_exprs_scopes(st: ResolverState, es: Seq<Expression>, src: Seq<char>)
    ensures
        res_exprs(st, es, src) matches Some(st2) ==> st2.scopes == st.scopes,
    decreases es,
{
    if es.len() > 0 {
        lemma_res_exprs_scopes(st, es.drop_last(), src);
        if let Some(st1) = res_exprs(st, es.drop_last(), src) {
            lemma_res_expr_scopes(st1, es.last(), src);
        }
    }
}

/// The span of the name that `e` reads or assigns, if `e` is a variable
/// or an assignment.
pub open spec fn referenced_name(e: Expression) -> Option<Span> {
    match e.node {
        ExpressionKind::Variable(sp) => Some(sp),
        ExpressionKind::Assign(a) => Some(a.target),
        _ => None,
    }
}

/// A variable, whether read or assigned, resolves to the nearest scope that
/// declares its name: where a scope in reach declares it, the distance
/// recorded for the node is how many scopes out the nearest such scope is.
/// A read of a name that no scope declares records nothing.
pub proof fn law_references_resolve_to_the_nearest_scope(st: ResolverState, e: Expression, src: Seq<char>)
    requires
        referenced_name(e) matches Some(sp) && name_at(sp, src) is Some,
        res_expr(st, e, src) is Some,
    ensures
        ({
            let name = name_at(referenced_name(e).unwrap(), src).unwrap();
            let st2 = res_expr(st, e, src).unwrap();
            &&& innermost(st.scopes, name) matches Some(d) ==> st2.distances.contains_key(e.id)
                && st2.distances[e.id] == d as u32
            &&& (e.node is Variable && innermost(st.scopes, name) is None) ==> st2.distances == st.distances
        }),
{
    match e.node {
        ExpressionKind::Assign(a) => lemma_res_expr_scopes(st, *a.value, src),
        _ => {},
    }
}

pub proof fn lemma_res_expr_some(st: ResolverState, e: Expression, src: Seq<char>)
    requires
        expr_names_ok(expr_v(e), src),
    ensures
        res_expr(st, e, src) is Some,
    decreases e,
{
    match e.node {
        ExpressionKind::Assign(a) => lemma_res_expr_some(st, *a.value, src),
        ExpressionKind::Call(c) => {
            lemma_res_expr_some(st, *c.callee, src);
            lemma_res_exprs_some(res_expr(st, *c.callee, src).unwrap(), c.arguments@, src);
        },
        ExpressionKind::Logical(l) => {
            lemma_res_expr_some(st, *l.left, src);
            lemma_res_expr_some(res_expr(st, *l.left, src).unwrap(), *l.right, src);
        },
        ExpressionKind::Binary(b) => {
            lemma_res_expr_some(st, *b.left, src);
            lemma_res_expr_some(res_expr(st, *b.left, src).unwrap(), *b.right, src);
        },
        ExpressionKind::Unary(Unary::Negate(x)) => lemma_res_expr_some(st, *x, src),
        ExpressionKind::Unary(Unary::Not(x)) => lemma_res_expr_some(st, *x, src),
        ExpressionKind::Get(g) => lemma_res_expr_some(st, *g.object, src),
        ExpressionKind::SetProperty(sp) => {
            lemma_res_expr_some(st, *sp.object, src);
            lemma_res_expr_some(res_expr(st, *sp.object, src).unwrap(), *sp.value, src);
        },
        _ => {},
    }
}

pub proof fn lemma_res_exprs_some(st: ResolverState, es: Seq<Expression>, src: Seq<char>)
    requires
        exprs_names_ok(exprs_v(es), src),
    ensures
        res_exprs(st, es, src) is Some,
    decreases es,
{
    if es.len() > 0 {
        lemma_exprs_push(exprs_v(es.drop_last()), expr_v(es.last()), src);
        lemma_res_exprs_some(st, es.drop_last(), src);
        lemma_res_expr_some(res_exprs(st, es.drop_last(), src).unwrap(), es.last(), src);
    }
}

pub proof fn lemma_res_stmt_some(st: ResolverState, s: Statement, src: Seq<char>)
    requires
        stmt_names_ok(stmt_v(s), src),
    ensures
        res_stmt(st, s, src) is Some,
    decreases s,
{
    match s.node {
        StatementKind::Block(ds) => lemma_res_decls_some(st.begin(), ds@, src),
        StatementKind::Expression(e) => lemma_res_expr_some(st, e, src),
        StatementKind::Print(e) => lemma_res_expr_some(st, e, src),
        StatementKind::Return(x) => {
            let st1 = if st.function == FunctionType::TopLevel {
                st.error(s.span, "Can't return from top-level code."@)
            } else {
                st
            };
            let st2 = if st1.function == FunctionType::Initializer && x is Some {
                st1.error(s.span, "Can't return a value from an initializer."@)
            } else {
                st1
            };
            match x {
                Some(e) => lemma_res_expr_some(st2, e, src),
                None => {},
            }
        },
        StatementKind::While(w) => {
            lemma_res_expr_some(st, w.condition, src);
            lemma_res_stmt_some(res_expr(st, w.condition, src).unwrap(), *w.body, src);
        },
        StatementKind::If(i) => {
            lemma_res_expr_some(st, i.condition, src);
            let st1 = res_expr(st, i.condition, src).unwrap();
            lemma_res_stmt_some(st1, *i.then_branch, src);
            match i.else_branch {
                Some(b) => lemma_res_stmt_some(res_stmt(st1, *i.then_branch, src).unwrap(), *b, src),
                None => {},
            }
        },
    }
}

pub proof fn lemma_res_params_some(st: ResolverState, ps: Seq<Span>, src: Seq<char>)
    requires
        spans_ok(ps, src),
    ensures
        res_params(st, ps, src) is Some,
    decreases ps.len(),
{
    if ps.len() > 0 {
        assert(spans_ok(ps.drop_last(), src)) by {
            assert forall|i: int| 0 <= i < ps.drop_last().len() implies (#[trigger] ps.drop_last()[i]).valid_in(src) by {
                assert(ps.drop_last()[i] == ps[i]);
            }
        }
        assert(ps.last().valid_in(src));
        lemma_res_params_some(st, ps.drop_last(), src);
    }
}

pub proof fn lemma_res_function_some(st: ResolverState, f: Function, src: Seq<char>)
    requires
        fun_names_ok(function_v(f), src),
    ensures
        res_function(st, f, src) is Some,
    decreases f,
{
    lemma_res_params_some(st.begin(), f.parameter_names@, src);
    let st1 = res_params(st.begin(), f.parameter_names@, src).unwrap();
    match f.body.node {
        StatementKind::Block(ds) => lemma_res_decls_some(st1, ds@, src),
        _ => {},
    }
}

pub proof fn lemma_res_methods_some(st: ResolverState, ms: Seq<Node<Function>>, src: Seq<char>)
    requires
        methods_names_ok(methods_v(ms), src),
    ensures
        res_methods(st, ms, src) is Some,
    decreases ms,
{
    if ms.len() > 0 {
        let rest = methods_v(ms.drop_last());
        assert(rest.push((ms.last().span, function_v(ms.last().node))).drop_last() =~= rest);
        lemma_res_methods_some(st, ms.drop_last(), src);
        let st1 = res_methods(st, ms.drop_last(), src).unwrap();
        let mn = ms.last().node.name.text_in(src);
        let kind = if mn == "init"@ {
            FunctionType::Initializer
        } else {
            FunctionType::Method
        };
        lemma_res_function_some(st1.in_function(kind), ms.last().node, src);
    }
}

pub proof fn lemma_res_superclass_some(st: ResolverState, class_name: Seq<char>, sup: Option<Expression>, src: Seq<char>)
    requires
        sup matches Some(x) ==> expr_names_ok(expr_v(x), src),
    ensures
        res_superclass(st, class_name, sup, src) is Some,
    decreases sup,
{
    match sup {
        Some(x) => {
            let checked = match x.node {
                ExpressionKind::Variable(sp) => match name_at(sp, src) {
                    Some(sn) => Some(if sn == class_name {
                        st.error(x.span, "A class can't inherit from itself"@)
                    } else {
                        st
                    }),
                    None => None,
                },
                _ => Some(st),
            };
            lemma_res_expr_some(checked.unwrap().in_class(ClassType::Subclass), x, src);
        },
        None => {},
    }
}

pub proof fn lemma_res_class_some(st: ResolverState, span: Span, c: Class, src: Seq<char>)
    requires
        c.name.valid_in(src),
        c.superclass matches Some(x) ==> expr_names_ok(expr_v(x), src),
        methods_names_ok(methods_v(c.methods@), src),
    ensures
        res_class(st, span, c, src) is Some,
    decreases c,
{
    let cname = c.name.text_in(src);
    let st1 = st.in_class(ClassType::Class).declare(span, cname).define(cname);
    lemma_res_superclass_some(st1, cname, c.superclass, src);
    let (st2, has_super) = res_superclass(st1, cname, c.superclass, src).unwrap();
    let st3 = if has_super {
        st2.begin().define("super"@)
    } else {
        st2
    };
    lemma_res_methods_some(st3.begin().define("this"@), c.methods@, src);
}

pub proof fn lemma_res_decl_some(st: ResolverState, d: Declaration, src: Seq<char>)
    requires
        decl_names_ok(decl_v(d), src),
    ensures
        res_decl(st, d, src) is Some,
    decreases d,
{
    match d.node {
        DeclarationKind::Statement(s) => lemma_res_stmt_some(st, s, src),
        DeclarationKind::Function(f) => {
            let name = f.name.text_in(src);
            let st1 = st.declare(d.span, name).define(name);
            lemma_res_function_some(st1.in_function(FunctionType::Function), f, src);
        },
        DeclarationKind::Class(c) => lemma_res_class_some(st, d.span, c, src),
        DeclarationKind::Var(v) => {
            let name = v.identifier.text_in(src);
            match v.initial {
                Some(e) => lemma_res_expr_some(st.declare(d.span, name), e, src),
                None => {},
            }
        },
    }
}

pub proof fn lemma_res_decls_some(st: ResolverState, ds: Seq<Declaration>, src: Seq<char>)
    requires
        decls_names_ok(decls_v(ds), src),
    ensures
        res_decls(st, ds, src) is Some,
    decreases ds,
{
    if ds.len() > 0 {
        lemma_decls_push(decls_v(ds.drop_last()), decl_v(ds.last()), src);
        lemma_res_decls_some(st, ds.drop_last(), src);
        lemma_res_decl_some(res_decls(st, ds.drop_last(), src).unwrap(), ds.last(), src);
    }
}

/// What the parser builds, the resolver takes: resolving the declarations
/// that `parse_str` gives for `src` never panics, whatever was resolved
/// before.
pub proof fn law_resolver_takes_what_parser_builds(
    src: Seq<char>,
    decls: Seq<Declaration>,
    diags: Seq<Diagnostic>,
    distances: Map<NodeId, u32>,
)
    requires
        scan_finishes(src),
        parse_result_is(src, decls, diags),
        byte_len(src) <= usize::MAX,
    ensures
        resolution(distances, decls, src) is Some,
{
    crate::parser::progress::lemma_program(scanned_tokens(src), 0, seq![], seq![]);
    lemma_scanned_idents_ok(src);
    lemma_names_program(scanned_tokens(src), 0, seq![], seq![], src);
    lemma_res_decls_some(ResolverState::initial(distances), decls, src);
}

} // verus!
