//! Syntax-tree nodes that remember where in the source they came from.
pub use crate::parser::span::Span;
use vstd::prelude::*;
use vstd::multiset::Multiset;
use vstd::std_specs::cmp::PartialEqSpec;

verus! {

pub type NodeId = u64;

/// Hands out node ids: each one after the last, counting round to 0 after
/// `u64::MAX`.
pub struct NodeIds {
    next: u64,
    /// How many ids were handed out so far.
    issued: Ghost<nat>,
}

/// The number of distinct `u64` ids.
pub open spec fn id_space() -> nat {
    0x1_0000_0000_0000_0000
}

/// The ids handed out while the count of issued ids went from `lo` to
/// `hi`: each count taken modulo `id_space()`.
pub open spec fn id_window(lo: nat, hi: nat) -> Multiset<u64>
    decreases hi,
{
    if hi <= lo {
        Multiset::empty()
    } else {
        id_window(lo, (hi - 1) as nat).insert((((hi - 1) as nat) % id_space()) as u64)
    }
}

/// Two windows one after the other make the window over both.
pub proof fn lemma_window_split(lo: nat, mid: nat, hi: nat)
    requires
        lo <= mid <= hi,
    ensures
        id_window(lo, mid).add(id_window(mid, hi)) =~= id_window(lo, hi),
    decreases hi,
{
    broadcast use vstd::multiset::group_multiset_axioms;
    if hi > mid {
        lemma_window_split(lo, mid, (hi - 1) as nat);
    }
}

proof fn lemma_mod_apart(a: nat, b: nat)
    requires
        a < b,
        b - a < id_space(),
    ensures
        a % id_space() != b % id_space(),
{
    let m = id_space() as int;
    let ai = a as int;
    let bi = b as int;
    let qa = ai / m;
    let qb = bi / m;
    assert(ai == qa * m + ai % m && bi == qb * m + bi % m && 0 <= ai % m < m && 0 <= bi % m < m) by (nonlinear_arith)
        requires
            m > 0,
            qa == ai / m,
            qb == bi / m,
    ;
    if ai % m == bi % m {
        assert(bi - ai == (qb - qa) * m) by (nonlinear_arith)
            requires
                ai == qa * m + ai % m,
                bi == qb * m + bi % m,
                ai % m == bi % m,
        ;
        assert(false) by (nonlinear_arith)
            requires
                bi - ai == (qb - qa) * m,
                0 < bi - ai < m,
                m > 0,
        ;
    }
}

/// An id not taken by any count in `lo..hi` is not in their window.
proof fn lemma_window_avoids(lo: nat, hi: nat, x: nat)
    requires
        lo <= x,
        hi <= x,
        x - lo < id_space(),
    ensures
        id_window(lo, hi).count((x % id_space()) as u64) == 0,
    decreases hi,
{
    broadcast use vstd::multiset::group_multiset_axioms;
    if hi > lo {
        lemma_window_avoids(lo, (hi - 1) as nat, x);
        lemma_mod_apart((hi - 1) as nat, x);
        assert((((hi - 1) as nat) % id_space()) as u64 != (x % id_space()) as u64);
    }
}

/// A window no wider than the id space holds each id at most once.
pub proof fn lemma_window_distinct(lo: nat, hi: nat)
    requires
        hi - lo <= id_space(),
    ensures
        forall|x: u64| #[trigger] id_window(lo, hi).count(x) <= 1,
    decreases hi,
{
    broadcast use vstd::multiset::group_multiset_axioms;
    if hi > lo {
        let h = (hi - 1) as nat;
        lemma_window_distinct(lo, h);
        lemma_window_avoids(lo, h, h);
    }
}

/// Ids among those of an earlier window, and ids among those of a later
/// one, are together among those of the window over both.
pub proof fn lemma_window_join(a_ids: Multiset<u64>, a: nat, b: nat, b_ids: Multiset<u64>, c: nat, d: nat)
    requires
        a <= b <= c <= d,
        a_ids.subset_of(id_window(a, b)),
        b_ids.subset_of(id_window(c, d)),
    ensures
        a_ids.add(b_ids).subset_of(id_window(a, d)),
{
    broadcast use vstd::multiset::group_multiset_axioms;
    lemma_window_split(a, b, c);
    lemma_window_split(a, c, d);
    assert forall|x: u64| #[trigger] a_ids.add(b_ids).count(x) <= id_window(a, d).count(x) by {
        assert(a_ids.count(x) <= id_window(a, b).count(x));
        assert(b_ids.count(x) <= id_window(c, d).count(x));
    }
}

/// Ids among those of a window are among those of any wider window.
pub proof fn lemma_window_widen(ids: Multiset<u64>, a: nat, b: nat, a2: nat, b2: nat)
    requires
        a2 <= a <= b <= b2,
        ids.subset_of(id_window(a, b)),
    ensures
        ids.subset_of(id_window(a2, b2)),
{
    lemma_window_join(Multiset::empty(), a2, a, ids, a, b);
    lemma_window_join(ids, a2, b, Multiset::empty(), b2, b2);
    assert(Multiset::<u64>::empty().add(ids) =~= ids);
    assert(ids.add(Multiset::<u64>::empty()) =~= ids);
}

/// The id handed out at count `d` joins the window that ends there.
pub proof fn lemma_window_push(ids: Multiset<u64>, a: nat, d: nat)
    requires
        a <= d,
        ids.subset_of(id_window(a, d)),
    ensures
        ids.insert((d % id_space()) as u64).subset_of(id_window(a, d + 1)),
{
    broadcast use vstd::multiset::group_multiset_axioms;
    assert(id_window(a, d + 1) == id_window(a, d).insert((d % id_space()) as u64));
}

/// A node made at count `d` over children whose ids were handed out from
/// count `a2` up to `b`, all after count `a`.
pub proof fn lemma_node_ids(below: Multiset<u64>, a: nat, a2: nat, b: nat, d: nat)
    requires
        a <= a2 <= b <= d,
        below.subset_of(id_window(a2, b)),
    ensures
        below.insert((d % id_space()) as u64).subset_of(id_window(a, d + 1)),
{
    lemma_window_widen(below, a2, b, a, d);
    lemma_window_push(below, a, d);
}

/// A node made at count `e` over two children, the first with ids handed
/// out from `a` up to `b`, the second from `c` up to `d`.
pub proof fn lemma_node_ids2(l: Multiset<u64>, a: nat, b: nat, r: Multiset<u64>, c: nat, d: nat, e: nat)
    requires
        a <= b <= c <= d <= e,
        l.subset_of(id_window(a, b)),
        r.subset_of(id_window(c, d)),
    ensures
        l.add(r).insert((e % id_space()) as u64).subset_of(id_window(a, e + 1)),
{
    lemma_window_join(l, a, b, r, c, d);
    lemma_node_ids(l.add(r), a, a, d, e);
}

/// A node with nothing below it, made at count `d`, after count `a`.
pub proof fn lemma_leaf_ids(a: nat, d: nat)
    requires
        a <= d,
    ensures
        Multiset::<u64>::empty().insert((d % id_space()) as u64).subset_of(id_window(a, d + 1)),
{
    broadcast use vstd::multiset::group_multiset_axioms;
    lemma_node_ids(Multiset::empty(), a, d, d, d);
}

/// No ids are among those of any window.
pub proof fn lemma_empty_ids(a: nat, b: nat)
    ensures
        Multiset::<u64>::empty().subset_of(id_window(a, b)),
{
    broadcast use vstd::multiset::group_multiset_axioms;
}

/// What lies below an inserted id is among what the whole is among.
pub proof fn lemma_subset_insert(m: Multiset<u64>, x: u64, w: Multiset<u64>)
    requires
        m.insert(x).subset_of(w),
    ensures
        m.subset_of(w),
{
    broadcast use vstd::multiset::group_multiset_axioms;
    assert forall|y: u64| #[trigger] m.count(y) <= w.count(y) by {
        assert(m.count(y) <= m.insert(x).count(y));
    }
}

impl NodeIds {
    #[verifier::type_invariant]
    spec fn counts(&self) -> bool {
        self.next as nat == self.issued@ % id_space()
    }

    /// The id handed out next.
    pub closed spec fn next_id(&self) -> nat {
        self.next as nat
    }

    /// How many ids were handed out so far; the next id is this count
    /// modulo `id_space()`.
    pub closed spec fn issued(&self) -> nat {
        self.issued@
    }

    pub fn new() -> (r: Self)
        ensures
            r.next_id() == 0,
            r.issued() == 0,
    {
        NodeIds { next: 0, issued: Ghost(0) }
    }

    /// The id that follows `id`.
    pub open spec fn after(id: nat) -> nat {
        if id == u64::MAX {
            0
        } else {
            id + 1
        }
    }

    /// A fresh id: the next one in line.
    pub fn fresh(&mut self) -> (id: NodeId)
        ensures
            id == old(self).next_id(),
            id == old(self).issued() % id_space(),
            final(self).next_id() == Self::after(old(self).next_id()),
            final(self).issued() == old(self).issued() + 1,
            final(self).next_id() == final(self).issued() % id_space(),
    {
        proof {
            use_type_invariant(&*self);
        }
        let id = self.next;
        let ghost n = self.issued@;
        proof {
            lemma_mod_step(n, id as nat);
        }
        *self = NodeIds { next: id.wrapping_add(1), issued: Ghost((n + 1) as nat) };
        id
    }
}

proof fn lemma_mod_step(n: nat, r: nat)
    requires
        r == n % id_space(),
    ensures
        (n + 1) % id_space() == NodeIds::after(r),
{
    let m: int = id_space() as int;
    let ni: int = n as int;
    let ri: int = r as int;
    let q: int = ni / m;
    assert(ni == q * m + ri && q >= 0) by (nonlinear_arith)
        requires
            ri == ni % m,
            q == ni / m,
            m > 0,
            ni >= 0,
    ;
    if r == u64::MAX {
        assert((ni + 1) % m == 0) by (nonlinear_arith)
            requires
                ni == q * m + ri,
                ri + 1 == m,
                q >= 0,
                m > 0,
        ;
    } else {
        assert((ni + 1) % m == ri + 1) by (nonlinear_arith)
            requires
                ni == q * m + ri,
                0 <= ri,
                ri + 1 < m,
                q >= 0,
        ;
    }
}

/// A value together with the span of source it covers.
#[derive(Debug, Clone)]
pub struct Spanned<T> {
    pub span: Span,
    pub node: T,
}

/// A syntax-tree node: a value, its span, and an id that tells it apart from
/// the other nodes built with the same `NodeIds` (until its `u64` ids run out
/// and start again from 0).
#[derive(Debug, Clone)]
pub struct Node<T> {
    pub id: NodeId,
    pub span: Span,
    pub node: T,
}

/// Nodes are equal when their values are, wherever they came from.
impl<T: PartialEq> PartialEq for Node<T> {
    fn eq(&self, other: &Self) -> (r: bool) {
        self.node == other.node
    }
}

impl<T: PartialEq> vstd::std_specs::cmp::PartialEqSpecImpl for Node<T> {
    open spec fn obeys_eq_spec() -> bool {
        <T as PartialEqSpec>::obeys_eq_spec()
    }

    open spec fn eq_spec(&self, other: &Self) -> bool {
        self.node.eq_spec(&other.node)
    }
}

/// Spanned values are equal when their values are, wherever they came from.
impl<T: PartialEq> PartialEq for Spanned<T> {
    fn eq(&self, other: &Self) -> (r: bool) {
        self.node == other.node
    }
}

impl<T: PartialEq> vstd::std_specs::cmp::PartialEqSpecImpl for Spanned<T> {
    open spec fn obeys_eq_spec() -> bool {
        <T as PartialEqSpec>::obeys_eq_spec()
    }

    open spec fn eq_spec(&self, other: &Self) -> bool {
        self.node.eq_spec(&other.node)
    }
}

impl<T> Node<T> {
    pub open spec fn spec_id(&self) -> NodeId {
        self.id
    }

    /// A node with a fresh id from `ids`.
    pub fn new(ids: &mut NodeIds, span: Span, node: T) -> (r: Node<T>)
        ensures
            r.spec_id() == old(ids).next_id(),
            r.spec_id() == old(ids).issued() % id_space(),
            final(ids).next_id() == NodeIds::after(old(ids).next_id()),
            final(ids).issued() == old(ids).issued() + 1,
            r.span == span,
            r.node == node,
    {
        let id = ids.fresh();
        Node { id, span, node }
    }

    /// A node spanning from the start of `l` to the end of `r`.
    pub fn encapsulating(ids: &mut NodeIds, l: Span, r: Span, node: T) -> (res: Node<T>)
        ensures
            res.spec_id() == old(ids).next_id(),
            res.spec_id() == old(ids).issued() % id_space(),
            final(ids).next_id() == NodeIds::after(old(ids).next_id()),
            final(ids).issued() == old(ids).issued() + 1,
            res.span == (Span { start: l.start, end: r.end }),
            res.node == node,
    {
        let start = l.start;
        let end = r.end;
        Self::new(ids, Span { start, end }, node)
    }

    /// A node that points at no particular source: its span is `0..0`.
    pub fn untracked(ids: &mut NodeIds, node: T) -> (res: Node<T>)
        ensures
            res.spec_id() == old(ids).next_id(),
            res.spec_id() == old(ids).issued() % id_space(),
            final(ids).next_id() == NodeIds::after(old(ids).next_id()),
            final(ids).issued() == old(ids).issued() + 1,
            res.span == (Span { start: 0, end: 0 }),
            res.node == node,
    {
        Self::new(ids, Span { start: 0, end: 0 }, node)
    }

    pub fn id(&self) -> (r: NodeId)
        ensures
            r == self.spec_id(),
    {
        self.id
    }
}

} // verus!
