//! Environments: where names are bound to values, each environment
//! inheriting the names of its parent.
//!
//! All environments live in one `Environments` store; an `Environment` is a
//! handle on one of them. Defining or assigning a name updates its binding
//! in place where the environment has one, and adds one otherwise.
use vstd::prelude::*;

verus! {

/// The store's contents as plain values.
pub struct EnvModel<V> {
    /// The parent of each environment, by index.
    pub parents: Seq<Option<usize>>,
    /// Every binding made, oldest first: environment, name, value.
    pub bindings: Seq<(int, Seq<char>, V)>,
}

/// The value that the latest of `bs` binding `key` in environment `j`
/// gives it, if any binding does.
pub open spec fn local_in<V>(bs: Seq<(int, Seq<char>, V)>, j: int, key: Seq<char>) -> Option<V>
    decreases bs.len(),
{
    if bs.len() == 0 {
        None
    } else if bs.last().0 == j && bs.last().1 == key {
        Some(bs.last().2)
    } else {
        local_in(bs.drop_last(), j, key)
    }
}

/// The index of the latest of `bs` binding `key` in environment `j`, if any.
pub open spec fn latest<V>(bs: Seq<(int, Seq<char>, V)>, j: int, key: Seq<char>) -> Option<int>
    decreases bs.len(),
{
    if bs.len() == 0 {
        None
    } else if bs.last().0 == j && bs.last().1 == key {
        Some(bs.len() - 1)
    } else {
        latest(bs.drop_last(), j, key)
    }
}

/// `bs` with `key` bound to `v` in environment `j`: its binding there
/// updated in place, or a new one added at the end.
pub open spec fn set_binding<V>(bs: Seq<(int, Seq<char>, V)>, j: int, key: Seq<char>, v: V) -> Seq<(int, Seq<char>, V)> {
    match latest(bs, j, key) {
        Some(k) => bs.update(k, (j, key, v)),
        None => bs.push((j, key, v)),
    }
}

/// The latest binding is where the value of a name comes from.
pub proof fn lemma_latest<V>(bs: Seq<(int, Seq<char>, V)>, j: int, key: Seq<char>)
    ensures
        latest(bs, j, key) matches Some(k) ==> 0 <= k < bs.len() && bs[k].0 == j && bs[k].1 == key,
        local_in(bs, j, key) == (match latest(bs, j, key) {
            Some(k) => Some(bs[k].2),
            None => None,
        }),
    decreases bs.len(),
{
    if bs.len() > 0 && !(bs.last().0 == j && bs.last().1 == key) {
        lemma_latest(bs.drop_last(), j, key);
    }
}

/// After binding `key` to `v` in `j`, `key` has the value `v` in `j`, and
/// every other name and environment keeps its value.
pub proof fn lemma_local_set<V>(bs: Seq<(int, Seq<char>, V)>, j: int, key: Seq<char>, v: V, j2: int, key2: Seq<char>)
    ensures
        local_in(set_binding(bs, j, key, v), j2, key2) == (if j2 == j && key2 == key {
            Some(v)
        } else {
            local_in(bs, j2, key2)
        }),
    decreases bs.len(),
{
    let after = set_binding(bs, j, key, v);
    lemma_latest(bs, j, key);
    match latest(bs, j, key) {
        None => {
            assert(after.drop_last() =~= bs);
        },
        Some(k) => {
            if k == bs.len() - 1 {
                assert(after.drop_last() =~= bs.drop_last());
            } else {
                lemma_latest(bs.drop_last(), j, key);
                assert(latest(bs.drop_last(), j, key) == Some(k));
                assert(after.drop_last() =~= set_binding(bs.drop_last(), j, key, v));
                assert(after.last() == bs.last());
                lemma_local_set(bs.drop_last(), j, key, v, j2, key2);
            }
        },
    }
}

impl<V> EnvModel<V> {
    /// Parents come before their children, and every binding is in an
    /// environment that exists.
    pub open spec fn wf(self) -> bool {
        &&& forall|j: int|
            0 <= j < self.parents.len() ==> (#[trigger] self.parents[j] matches Some(p) ==> p < j)
        &&& forall|k: int| 0 <= k < self.bindings.len() ==> (#[trigger] self.bindings[k]).0 < self.parents.len()
    }

    /// The store after `key` is bound to `v` in environment `j`.
    pub open spec fn bound(self, j: int, key: Seq<char>, v: V) -> EnvModel<V> {
        EnvModel { parents: self.parents, bindings: set_binding(self.bindings, j, key, v) }
    }

    pub open spec fn has(self, j: int) -> bool {
        0 <= j < self.parents.len()
    }

    /// The value of `key` in environment `j` itself.
    pub open spec fn local(self, j: int, key: Seq<char>) -> Option<V> {
        local_in(self.bindings, j, key)
    }

    /// The value of `key` seen from environment `j`: its own, or else its
    /// parent's.
    pub open spec fn get(self, j: int, key: Seq<char>) -> Option<V>
        decreases j,
    {
        if !self.has(j) {
            None
        } else if self.local(j, key) is Some {
            self.local(j, key)
        } else {
            match self.parents[j] {
                Some(p) => if 0 <= p < j {
                    self.get(p as int, key)
                } else {
                    None
                },
                None => None,
            }
        }
    }

    /// The environment, `j` or one of its ancestors, where `key` is bound
    /// as seen from `j`.
    pub open spec fn owner(self, j: int, key: Seq<char>) -> Option<int>
        decreases j,
    {
        if !self.has(j) {
            None
        } else if self.local(j, key) is Some {
            Some(j)
        } else {
            match self.parents[j] {
                Some(p) => if 0 <= p < j {
                    self.owner(p as int, key)
                } else {
                    None
                },
                None => None,
            }
        }
    }

    /// The environment `d` parents up from `j`.
    pub open spec fn ancestor(self, j: int, d: nat) -> Option<int>
        decreases d,
    {
        if !self.has(j) {
            None
        } else if d == 0 {
            Some(j)
        } else {
            match self.parents[j] {
                Some(p) => self.ancestor(p as int, (d - 1) as nat),
                None => None,
            }
        }
    }
}

/// Looking up or assigning a name that no environment in reach binds.
#[derive(Debug, PartialEq)]
pub enum EnvError {
    UndefinedVariable { name: String },
}

/// Every environment, with every binding made in it.
#[derive(Debug)]
pub struct Environments<V> {
    parents: Vec<Option<usize>>,
    bindings: Vec<(usize, String, V)>,
}

/// A handle on one environment of an `Environments` store.
#[derive(Debug, Clone, Copy, PartialEq, Eq, Structural)]
pub struct Environment {
    index: usize,
}

impl Environment {
    pub closed spec fn id(self) -> int {
        self.index as int
    }
}

impl<V> Environments<V> {
    pub closed spec fn model(&self) -> EnvModel<V> {
        EnvModel {
            parents: self.parents@,
            bindings: self.bindings@.map_values(|b: (usize, String, V)| (b.0 as int, b.1@, b.2)),
        }
    }

    /// A store with no environments.
    pub fn new() -> (r: Self)
        ensures
            r.model().wf(),
            r.model().parents.len() == 0,
            r.model().bindings.len() == 0,
    {
        let r = Environments { parents: Vec::new(), bindings: Vec::new() };
        assert(r.model().bindings =~= Seq::<(int, Seq<char>, V)>::empty());
        r
    }

    fn add(&mut self, parent: Option<usize>) -> (r: Environment)
        requires
            old(self).model().wf(),
            parent matches Some(p) ==> p < old(self).model().parents.len(),
            old(self).model().parents.len() < usize::MAX,
        ensures
            final(self).model().wf(),
            r.id() == old(self).model().parents.len(),
            final(self).model().parents == old(self).model().parents.push(parent),
            final(self).model().bindings == old(self).model().bindings,
    {
        let index = self.parents.len();
        let ghost m0 = self.model();
        self.parents.push(parent);
        let r = Environment { index };
        let ghost m = self.model();
        assert(m.parents =~= m0.parents.push(parent));
        assert forall|j: int| 0 <= j < m.parents.len() implies (#[trigger] m.parents[j] matches Some(p) ==> p < j) by {
            if j < index {
                assert(m.parents[j] == m0.parents[j]);
            }
        }
        assert forall|k: int| 0 <= k < m.bindings.len() implies (#[trigger] m.bindings[k]).0 < m.parents.len() by {
            assert(m.bindings[k] == m0.bindings[k]);
        }
        r
    }

    fn bind(&mut self, env: usize, key: String, value: V)
        requires
            old(self).model().wf(),
            env < old(self).model().parents.len(),
        ensures
            final(self).model().wf(),
            final(self).model() == old(self).model().bound(env as int, key@, value),
    {
        let ghost before = self.bindings@;
        let ghost m0 = self.model();
        let ghost f = |b: (usize, String, V)| (b.0 as int, b.1@, b.2);
        match self.find_local(env, &key) {
            Some(k) => {
                self.bindings.set(k, (env, key, value));
                assert(self.bindings@.map_values(f) =~= before.map_values(f).update(k as int, (env as int, key@, value)));
            },
            None => {
                self.bindings.push((env, key, value));
                assert(self.bindings@.map_values(f) =~= before.map_values(f).push((env as int, key@, value)));
            },
        }
        let ghost m = self.model();
        assert(m.bindings =~= set_binding(m0.bindings, env as int, key@, value));
        assert forall|k: int| 0 <= k < m.bindings.len() implies (#[trigger] m.bindings[k]).0 < m.parents.len() by {
            if k < m0.bindings.len() && m.bindings[k] != m0.bindings[k] {
                assert(m.bindings[k].0 == env);
            }
        }
    }

    /// The index of the latest binding of `key` in environment `env`.
    fn find_local(&self, env: usize, key: &String) -> (r: Option<usize>)
        ensures
            match r {
                Some(k) => k < self.bindings@.len() && latest(self.model().bindings, env as int, key@) == Some(k as int)
                    && self.model().local(env as int, key@) == Some(self.model().bindings[k as int].2),
                None => latest(self.model().bindings, env as int, key@) is None
                    && self.model().local(env as int, key@) is None,
            },
    {
        let ghost bs = self.model().bindings;
        proof {
            lemma_latest(bs, env as int, key@);
        }
        let mut i = self.bindings.len();
        assert(bs.take(bs.len() as int) =~= bs);
        while i > 0
            invariant
                i <= bs.len(),
                bs == self.model().bindings,
                latest(bs, env as int, key@) == latest(bs.take(i as int), env as int, key@),
            decreases i,
        {
            assert(bs.take(i as int).drop_last() =~= bs.take(i as int - 1));
            i = i - 1;
            if self.bindings[i].0 == env && self.bindings[i].1 == *key {
                proof {
                    assert(bs[i as int] == (self.bindings@[i as int].0 as int, self.bindings@[i as int].1@, self.bindings@[i as int].2));
                    assert(bs.take(i as int + 1).last() == bs[i as int]);
                    assert(bs.take(i as int + 1).len() == i + 1);
                    lemma_latest(bs, env as int, key@);
                }
                return Some(i);
            }
        }
        assert(bs.take(0) =~= Seq::<(int, Seq<char>, V)>::empty());
        None
    }
}

impl Environment {
    /// A new root environment, with no parent.
    pub fn new<V>(envs: &mut Environments<V>) -> (r: Environment)
        requires
            old(envs).model().wf(),
            old(envs).model().parents.len() < usize::MAX,
        ensures
            final(envs).model().wf(),
            r.id() == old(envs).model().parents.len(),
            final(envs).model().parents == old(envs).model().parents.push(None),
            final(envs).model().bindings == old(envs).model().bindings,
    {
        envs.add(None)
    }

    /// A new environment that inherits from `parent`.
    pub fn new_with_parent<V>(envs: &mut Environments<V>, parent: &Environment) -> (r: Environment)
        requires
            old(envs).model().wf(),
            old(envs).model().has(parent.id()),
            old(envs).model().parents.len() < usize::MAX,
        ensures
            final(envs).model().wf(),
            r.id() == old(envs).model().parents.len(),
            final(envs).model().parents == old(envs).model().parents.push(Some(parent.id() as usize)),
            final(envs).model().bindings == old(envs).model().bindings,
    {
        envs.add(Some(parent.index))
    }

    /// A new environment with this one as its parent.
    pub fn child<V>(&self, envs: &mut Environments<V>) -> (r: Environment)
        requires
            old(envs).model().wf(),
            old(envs).model().has(self.id()),
            old(envs).model().parents.len() < usize::MAX,
        ensures
            final(envs).model().wf(),
            r.id() == old(envs).model().parents.len(),
            final(envs).model().parents == old(envs).model().parents.push(Some(self.id() as usize)),
            final(envs).model().bindings == old(envs).model().bindings,
    {
        Self::new_with_parent(envs, self)
    }

    /// The value of `key` here, or in the nearest ancestor that binds it.
    pub fn get<'a, V>(&self, envs: &'a Environments<V>, key: &str) -> (r: Result<&'a V, EnvError>)
        requires
            envs.model().wf(),
            envs.model().has(self.id()),
        ensures
            match r {
                Ok(v) => envs.model().get(self.id(), key@) == Some(*v),
                Err(EnvError::UndefinedVariable { name }) => envs.model().get(self.id(), key@) is None
                    && name@ == key@,
            },
    {
        let key_string = key.to_owned();
        let ghost m = envs.model();
        let mut cur = self.index;
        loop
            invariant
                m == envs.model(),
                m.wf(),
                m.has(cur as int),
                key_string@ == key@,
                m.get(cur as int, key@) == m.get(self.id(), key@),
            decreases cur,
        {
            match envs.find_local(cur, &key_string) {
                Some(k) => {
                    return Ok(&envs.bindings[k].2);
                },
                None => {},
            }
            assert(m.parents[cur as int] == envs.parents@[cur as int]);
            match envs.parents[cur] {
                Some(p) => {
                    cur = p;
                },
                None => {
                    return Err(EnvError::UndefinedVariable { name: key_string });
                },
            }
        }
    }

    /// Binds `key` to `value` in this environment.
    pub fn define<V>(&self, envs: &mut Environments<V>, key: &str, value: V)
        requires
            old(envs).model().wf(),
            old(envs).model().has(self.id()),
        ensures
            final(envs).model().wf(),
            final(envs).model() == old(envs).model().bound(self.id(), key@, value),
    {
        envs.bind(self.index, key.to_owned(), value);
    }

    /// Gives `key` the value `value` where it is bound: here, or in the
    /// nearest ancestor that binds it.
    pub fn assign<V>(&self, envs: &mut Environments<V>, key: &str, value: V) -> (r: Result<(), EnvError>)
        requires
            old(envs).model().wf(),
            old(envs).model().has(self.id()),
        ensures
            final(envs).model().wf(),
            final(envs).model().parents == old(envs).model().parents,
            match old(envs).model().owner(self.id(), key@) {
                Some(j) => r is Ok && final(envs).model() == old(envs).model().bound(j, key@, value),
                None => final(envs).model().bindings == old(envs).model().bindings
                    && (r matches Err(EnvError::UndefinedVariable { name }) && name@ == key@),
            },
    {
        let key_string = key.to_owned();
        let ghost m = envs.model();
        let mut cur = self.index;
        loop
            invariant
                m == envs.model(),
                m.wf(),
                m.has(cur as int),
                key_string@ == key@,
                m == old(envs).model(),
                m.owner(cur as int, key@) == m.owner(self.id(), key@),
            decreases cur,
        {
            match envs.find_local(cur, &key_string) {
                Some(_) => {
                    envs.bind(cur, key_string, value);
                    return Ok(());
                },
                None => {},
            }
            assert(m.parents[cur as int] == envs.parents@[cur as int]);
            match envs.parents[cur] {
                Some(p) => {
                    cur = p;
                },
                None => {
                    return Err(EnvError::UndefinedVariable { name: key_string });
                },
            }
        }
    }

    /// The environment `distance` parents up from this one, if there is one.
    pub fn ancestor<V>(&self, envs: &Environments<V>, distance: u32) -> (r: Option<Environment>)
        requires
            envs.model().wf(),
        ensures
            match envs.model().ancestor(self.id(), distance as nat) {
                Some(j) => r matches Some(e) && e.id() == j,
                None => r is None,
            },
    {
        let ghost m = envs.model();
        if self.index >= envs.parents.len() {
            return None;
        }
        let mut remaining = distance;
        let mut target = self.index;
        while remaining > 0
            invariant
                m == envs.model(),
                m.wf(),
                m.has(target as int),
                m.ancestor(target as int, remaining as nat) == m.ancestor(self.id(), distance as nat),
            decreases remaining,
        {
            assert(m.parents[target as int] == envs.parents@[target as int]);
            match envs.parents[target] {
                None => {
                    return None;
                },
                Some(p) => {
                    target = p;
                    remaining = remaining - 1;
                },
            }
        }
        Some(Environment { index: target })
    }
}

impl Environment {
    /// The value of `key` as seen from the environment `distance` parents up.
    /// That environment must exist.
    pub fn get_at<'a, V>(&self, envs: &'a Environments<V>, distance: u32, key: &str) -> (r: Result<&'a V, EnvError>)
        requires
            envs.model().wf(),
            envs.model().ancestor(self.id(), distance as nat) is Some,
        ensures
            match r {
                Ok(v) => envs.model().get(envs.model().ancestor(self.id(), distance as nat).unwrap(), key@)
                    == Some(*v),
                Err(EnvError::UndefinedVariable { name }) => envs.model().get(
                    envs.model().ancestor(self.id(), distance as nat).unwrap(),
                    key@,
                ) is None && name@ == key@,
            },
    {
        proof {
            lemma_ancestor_exists(envs.model(), self.id(), distance as nat);
        }
        match self.ancestor(envs, distance) {
            Some(target) => target.get(envs, key),
            None => Err(EnvError::UndefinedVariable { name: key.to_owned() }),
        }
    }

    /// Assigns `key` as seen from the environment `distance` parents up.
    /// That environment must exist.
    pub fn assign_at<V>(&self, envs: &mut Environments<V>, distance: u32, key: &str, value: V) -> (r: Result<(), EnvError>)
        requires
            old(envs).model().wf(),
            old(envs).model().ancestor(self.id(), distance as nat) is Some,
        ensures
            final(envs).model().wf(),
            final(envs).model().parents == old(envs).model().parents,
            match old(envs).model().owner(old(envs).model().ancestor(self.id(), distance as nat).unwrap(), key@) {
                Some(j) => r is Ok && final(envs).model() == old(envs).model().bound(j, key@, value),
                None => final(envs).model().bindings == old(envs).model().bindings
                    && (r matches Err(EnvError::UndefinedVariable { name }) && name@ == key@),
            },
    {
        proof {
            lemma_ancestor_exists(envs.model(), self.id(), distance as nat);
        }
        match self.ancestor(envs, distance) {
            Some(target) => target.assign(envs, key, value),
            None => Err(EnvError::UndefinedVariable { name: key.to_owned() }),
        }
    }
}

/// An ancestor that exists is an environment of the store.
pub proof fn lemma_ancestor_exists<V>(m: EnvModel<V>, j: int, d: nat)
    requires
        m.ancestor(j, d) is Some,
    ensures
        m.has(m.ancestor(j, d).unwrap()),
    decreases d,
{
    if d > 0 {
        match m.parents[j] {
            Some(p) => lemma_ancestor_exists(m, p as int, (d - 1) as nat),
            None => {},
        }
    }
}

/// After `key` is bound to `v` in environment `j`, looking `key` up from
/// `j` gives `v`.
pub proof fn law_get_after_define<V>(m: EnvModel<V>, j: int, key: Seq<char>, v: V)
    requires
        m.wf(),
        m.has(j),
    ensures
        m.bound(j, key, v).get(j, key) == Some(v),
{
    lemma_local_set(m.bindings, j, key, v, j, key);
}

/// Binding a name in environment `c` changes nothing seen from an
/// environment made before `c`, such as its parent.
pub proof fn law_define_leaves_older_environments<V>(m: EnvModel<V>, c: int, j: int, key: Seq<char>, k2: Seq<char>, v: V)
    requires
        m.wf(),
        m.has(c),
        m.has(j),
        j < c,
    ensures
        m.bound(c, key, v).get(j, k2) == m.get(j, k2),
    decreases j,
{
    lemma_local_set(m.bindings, c, key, v, j, k2);
    match m.parents[j] {
        Some(p) => {
            if 0 <= p < j {
                law_define_leaves_older_environments(m, c, p as int, key, k2, v);
            }
        },
        None => {},
    }
}

/// After assigning `key` from environment `j`, where some environment in
/// reach binds it, looking `key` up from `j` gives the value assigned.
pub proof fn law_get_after_assign<V>(m: EnvModel<V>, j: int, key: Seq<char>, v: V)
    requires
        m.wf(),
        m.owner(j, key) is Some,
    ensures
        m.bound(m.owner(j, key).unwrap(), key, v).get(j, key) == Some(v),
    decreases j,
{
    let o = m.owner(j, key).unwrap();
    let m2 = m.bound(o, key, v);
    lemma_owner_bounds(m, j, key);
    lemma_local_set(m.bindings, o, key, v, j, key);
    if m.local(j, key) is None {
        match m.parents[j] {
            Some(p) => {
                lemma_owner_bounds(m, p as int, key);
                law_get_after_assign(m, p as int, key, v);
            },
            None => {},
        }
    }
}

/// Assigning a name that is already bound where it is assigned changes no
/// binding but that one: the store holds as many bindings as before.
pub proof fn law_assign_keeps_the_store_size<V>(m: EnvModel<V>, j: int, key: Seq<char>, v: V)
    requires
        m.local(j, key) is Some,
    ensures
        m.bound(j, key, v).bindings.len() == m.bindings.len(),
{
    lemma_latest(m.bindings, j, key);
}

/// The owner of a name is the environment itself or an older one.
pub proof fn lemma_owner_bounds<V>(m: EnvModel<V>, j: int, key: Seq<char>)
    requires
        m.owner(j, key) is Some,
    ensures
        0 <= m.owner(j, key).unwrap() <= j,
    decreases j,
{
    if m.has(j) && m.local(j, key) is None {
        match m.parents[j] {
            Some(p) => {
                if 0 <= p < j {
                    lemma_owner_bounds(m, p as int, key);
                }
            },
            None => {},
        }
    }
}

} // verus!
