//! Environments: the scopes that hold the bindings of a running script.
//!
//! Scopes live in one store and refer to their parent by index, so an environment is a
//! handle that functions can capture and share: a binding added to a scope later is seen
//! by every function that captured it.

use crate::runtime::{InterpreterValue, RuntimeView};
use crate::text::str_equal;
use vstd::prelude::*;

verus! {

/// One scope: its parent, if any, and its bindings in the order they were made.
struct Scope {
    parent: Option<usize>,
    bindings: Vec<(String, InterpreterValue)>,
}

/// The mathematical form of a scope: its parent and what each name is bound to.
pub struct ScopeView {
    pub parent: Option<nat>,
    pub bindings: Map<Seq<char>, RuntimeView>,
}

/// The bindings made in order, a later binding of a name replacing an earlier one.
pub open spec fn bindings_map(b: Seq<(String, InterpreterValue)>) -> Map<Seq<char>, RuntimeView>
    decreases b.len(),
{
    if b.len() == 0 {
        Map::empty()
    } else {
        bindings_map(b.drop_last()).insert(b.last().0@, b.last().1@)
    }
}

/// A scope that binds nothing yet.
pub open spec fn empty_scope(parent: Option<nat>) -> ScopeView {
    ScopeView { parent, bindings: Map::empty() }
}

/// The value `name` is bound to, seen from the scope at `env`: its own binding, else the
/// one its parent sees. A parent is followed only when it was made before its child.
pub open spec fn lookup(scopes: Seq<ScopeView>, env: nat, name: Seq<char>) -> Option<RuntimeView>
    decreases env,
{
    if env < scopes.len() {
        if scopes[env as int].bindings.contains_key(name) {
            Some(scopes[env as int].bindings[name])
        } else {
            match scopes[env as int].parent {
                Some(p) => if p < env {
                    lookup(scopes, p, name)
                } else {
                    None
                },
                None => None,
            }
        }
    } else {
        None
    }
}

/// The scopes after `name` is bound to `value` in the scope at `env`, replacing an earlier
/// binding of the name; a handle that names no scope of the store changes nothing.
pub open spec fn with_binding(scopes: Seq<ScopeView>, env: nat, name: Seq<char>, value: RuntimeView) -> Seq<ScopeView> {
    if env < scopes.len() {
        scopes.update(
            env as int,
            ScopeView { parent: scopes[env as int].parent, bindings: scopes[env as int].bindings.insert(name, value) },
        )
    } else {
        scopes
    }
}

/// The store of all scopes.
pub struct Scopes {
    scopes: Vec<Scope>,
}

impl View for Scopes {
    type V = Seq<ScopeView>;

    closed spec fn view(&self) -> Seq<ScopeView> {
        Seq::new(
            self.scopes@.len(),
            |i: int|
                ScopeView {
                    parent: match self.scopes@[i].parent {
                        Some(p) => Some(p as nat),
                        None => None,
                    },
                    bindings: bindings_map(self.scopes@[i].bindings@),
                },
        )
    }
}

impl Scopes {
    /// A store without scopes.
    pub fn new() -> (r: Self)
        ensures
            r@ == Seq::<ScopeView>::empty(),
    {
        let r = Scopes { scopes: Vec::new() };
        assert(r@ =~= Seq::<ScopeView>::empty());
        r
    }

    fn add_scope(&mut self, parent: Option<usize>) -> (r: usize)
        ensures
            r == old(self)@.len(),
            final(self)@ == old(self)@.push(
                empty_scope(
                    match parent {
                        Some(p) => Some(p as nat),
                        None => None,
                    },
                ),
            ),
    {
        let r = self.scopes.len();
        self.scopes.push(Scope { parent, bindings: Vec::new() });
        proof {
            assert(bindings_map(Seq::<(String, InterpreterValue)>::empty()) =~= Map::empty());
            assert(self@ =~= old(self)@.push(
                empty_scope(
                    match parent {
                        Some(p) => Some(p as nat),
                        None => None,
                    },
                ),
            ));
        }
        r
    }
}

/// A handle to one scope of a store.
#[derive(Clone, Copy)]
pub struct Environment {
    index: usize,
}

impl Environment {
    /// The index of the scope this environment stands for.
    pub closed spec fn id(&self) -> nat {
        self.index as nat
    }

    /// A new scope without parent.
    pub fn new(scopes: &mut Scopes) -> (r: Environment)
        ensures
            r.id() == old(scopes)@.len(),
            final(scopes)@ == old(scopes)@.push(empty_scope(None)),
    {
        Environment { index: scopes.add_scope(None) }
    }

    /// A new scope whose parent is this one.
    pub fn new_child(&self, scopes: &mut Scopes) -> (r: Environment)
        ensures
            r.id() == old(scopes)@.len(),
            final(scopes)@ == old(scopes)@.push(empty_scope(Some(self.id()))),
    {
        Environment { index: scopes.add_scope(Some(self.index)) }
    }

    /// Binds `name` to `value` in this scope, replacing an earlier binding of the name.
    pub fn add(&self, scopes: &mut Scopes, name: &str, value: InterpreterValue)
        ensures
            final(scopes)@ == with_binding(old(scopes)@, self.id(), name@, value@),
    {
        if self.index < scopes.scopes.len() {
            let ghost before = scopes.scopes@[self.index as int].bindings@;
            let ghost v = value@;
            scopes.scopes[self.index].bindings.push((name.to_owned(), value));
            proof {
                let after = scopes.scopes@[self.index as int].bindings@;
                assert(after.drop_last() =~= before);
                assert(scopes@ =~= old(scopes)@.update(
                    self.id() as int,
                    ScopeView {
                        parent: old(scopes)@[self.id() as int].parent,
                        bindings: old(scopes)@[self.id() as int].bindings.insert(name@, v),
                    },
                ));
            }
        }
    }

    /// The value `name` is bound to, as seen from this scope.
    pub fn get(&self, scopes: &Scopes, name: &str) -> (r: Option<InterpreterValue>)
        ensures
            match r {
                Some(v) => lookup(scopes@, self.id(), name@) == Some(v@),
                None => lookup(scopes@, self.id(), name@) is None,
            },
    {
        let mut current = self.index;
        loop
            invariant
                lookup(scopes@, self.id(), name@) == lookup(scopes@, current as nat, name@),
            decreases current,
        {
            if current >= scopes.scopes.len() {
                return None;
            }
            let scope = &scopes.scopes[current];
            let ghost b = scope.bindings@;
            assert(scopes@[current as int].bindings == bindings_map(b));
            assert(b.take(b.len() as int) =~= b);
            let mut j = scope.bindings.len();
            while j > 0
                invariant
                    b == scope.bindings@,
                    current < scopes@.len(),
                    scopes@[current as int].bindings == bindings_map(b),
                    lookup(scopes@, self.id(), name@) == lookup(scopes@, current as nat, name@),
                    j <= b.len(),
                    bindings_map(b).contains_key(name@) == bindings_map(b.take(j as int)).contains_key(name@),
                    bindings_map(b).contains_key(name@) ==> bindings_map(b)[name@] == bindings_map(
                        b.take(j as int),
                    )[name@],
                decreases j,
            {
                j = j - 1;
                assert(b.take(j + 1).drop_last() =~= b.take(j as int));
                if str_equal(scope.bindings[j].0.as_str(), name) {
                    assert(b.take(j + 1).last() == b[j as int]);
                    assert(bindings_map(b.take(j + 1)) == bindings_map(b.take(j as int)).insert(
                        b[j as int].0@,
                        b[j as int].1@,
                    ));
                    assert(bindings_map(b).contains_key(name@));
                    assert(bindings_map(b)[name@] == b[j as int].1@);
                    let found = scope.bindings[j].1.clone();
                    assert(lookup(scopes@, current as nat, name@) == Some(found@));
                    return Some(found);
                }
            }
            assert(b.take(0) =~= Seq::<(String, InterpreterValue)>::empty());
            assert(scopes@[current as int].parent == match scope.parent {
                Some(p) => Some(p as nat),
                None => None,
            });
            match scope.parent {
                Some(p) => {
                    if p < current {
                        current = p;
                    } else {
                        return None;
                    }
                },
                None => {
                    return None;
                },
            }
        }
    }
}

/// The environments of the function calls under way, the innermost last.
pub struct EnvironmentStack {
    environments: Vec<Environment>,
}

impl View for EnvironmentStack {
    type V = Seq<nat>;

    closed spec fn view(&self) -> Seq<nat> {
        self.environments@.map_values(|e: Environment| e.id())
    }
}

impl EnvironmentStack {
    #[verifier::type_invariant]
    spec fn not_empty(&self) -> bool {
        self.environments@.len() > 0
    }

    /// A stack holding a new root environment.
    pub fn new(scopes: &mut Scopes) -> (r: Self)
        ensures
            r@ == seq![old(scopes)@.len()],
            final(scopes)@ == old(scopes)@.push(empty_scope(None)),
    {
        let root = Environment::new(scopes);
        let r = EnvironmentStack { environments: vec![root] };
        assert(r@ =~= seq![old(scopes)@.len()]);
        r
    }

    /// The number of environments on the stack; never zero.
    pub fn len(&self) -> (r: usize)
        ensures
            r == self@.len(),
            r >= 1,
    {
        proof {
            use_type_invariant(self);
        }
        self.environments.len()
    }

    /// The innermost environment.
    pub fn top(&self) -> (r: &Environment)
        ensures
            r.id() == self@.last(),
    {
        proof {
            use_type_invariant(self);
        }
        let n = self.environments.len();
        &self.environments[n - 1]
    }

    pub fn push(&mut self, environment: Environment)
        ensures
            final(self)@ == old(self)@.push(environment.id()),
    {
        let mut other = EnvironmentStack { environments: vec![environment] };
        std::mem::swap(self, &mut other);
        proof {
            use_type_invariant(&other);
        }
        let EnvironmentStack { mut environments } = other;
        environments.push(environment);
        *self = EnvironmentStack { environments };
        assert(self@ =~= old(self)@.push(environment.id()));
    }

    /// Leaves the innermost environment; the root environment is never left.
    pub fn pop(&mut self)
        requires
            old(self)@.len() >= 2,
        ensures
            final(self)@ == old(self)@.drop_last(),
    {
        let mut other = EnvironmentStack { environments: vec![Environment { index: 0 }] };
        std::mem::swap(self, &mut other);
        let EnvironmentStack { mut environments } = other;
        environments.pop();
        *self = EnvironmentStack { environments };
        assert(self@ =~= old(self)@.drop_last());
    }
}

/// Reading a name right after binding it in a scope, from that scope, gives the value bound.
pub proof fn law_get_after_add(scopes: Seq<ScopeView>, env: nat, name: Seq<char>, value: RuntimeView)
    requires
        env < scopes.len(),
    ensures
        lookup(
            scopes.update(
                env as int,
                ScopeView { parent: scopes[env as int].parent, bindings: scopes[env as int].bindings.insert(name, value) },
            ),
            env,
            name,
        ) == Some(value),
{
}

/// Binding a name leaves what every other name reads as, from every scope, unchanged.
pub proof fn law_add_keeps_other_names(
    scopes: Seq<ScopeView>,
    env: nat,
    name: Seq<char>,
    value: RuntimeView,
    from: nat,
    other: Seq<char>,
)
    requires
        env < scopes.len(),
        other != name,
    ensures
        lookup(
            scopes.update(
                env as int,
                ScopeView { parent: scopes[env as int].parent, bindings: scopes[env as int].bindings.insert(name, value) },
            ),
            from,
            other,
        ) == lookup(scopes, from, other),
    decreases from,
{
    let updated = scopes.update(
        env as int,
        ScopeView { parent: scopes[env as int].parent, bindings: scopes[env as int].bindings.insert(name, value) },
    );
    if from < scopes.len() {
        if let Some(p) = scopes[from as int].parent {
            if p < from {
                law_add_keeps_other_names(scopes, env, name, value, p, other);
            }
        }
    }
}

/// A new child scope reads every name as its parent does.
pub proof fn law_child_sees_parent(scopes: Seq<ScopeView>, parent: nat, name: Seq<char>)
    ensures
        lookup(scopes.push(empty_scope(Some(parent))), scopes.len(), name) == lookup(scopes, parent, name),
{
    if parent < scopes.len() {
        lemma_lookup_after_push(scopes, empty_scope(Some(parent)), parent, name);
    }
}

/// The parent is shared, not copied: a binding added to the parent after the child was made
/// is seen from the child, for a name the child does not bind itself.
pub proof fn law_child_sees_later_parent_binding(
    scopes: Seq<ScopeView>,
    child: nat,
    parent: nat,
    name: Seq<char>,
    value: RuntimeView,
)
    requires
        parent < child < scopes.len(),
        scopes[child as int].parent == Some(parent),
        !scopes[child as int].bindings.contains_key(name),
    ensures
        lookup(
            scopes.update(
                parent as int,
                ScopeView {
                    parent: scopes[parent as int].parent,
                    bindings: scopes[parent as int].bindings.insert(name, value),
                },
            ),
            child,
            name,
        ) == Some(value),
{
    let updated = scopes.update(
        parent as int,
        ScopeView { parent: scopes[parent as int].parent, bindings: scopes[parent as int].bindings.insert(name, value) },
    );
    law_get_after_add(scopes, parent, name, value);
    assert(updated[child as int] == scopes[child as int]);
}

/// Binding a name in a scope changes nothing of what the scopes made before it read: a
/// binding added to a child is not seen from its parent.
pub proof fn law_add_unseen_from_older_scopes(
    scopes: Seq<ScopeView>,
    env: nat,
    name: Seq<char>,
    value: RuntimeView,
    from: nat,
    any: Seq<char>,
)
    requires
        from < env < scopes.len(),
    ensures
        lookup(
            scopes.update(
                env as int,
                ScopeView { parent: scopes[env as int].parent, bindings: scopes[env as int].bindings.insert(name, value) },
            ),
            from,
            any,
        ) == lookup(scopes, from, any),
    decreases from,
{
    if let Some(p) = scopes[from as int].parent {
        if p < from {
            law_add_unseen_from_older_scopes(scopes, env, name, value, p, any);
        }
    }
}

/// A child environment shares its parent, it does not copy it. Right after `new_child`, the
/// child reads every name as the parent does. After the child binds `n` to `v`, it reads
/// `v` for `n`, and the parent reads every name as before. After the parent then binds `m`
/// to `w`, for a name the child does not bind itself, the child reads `w` for `m`.
pub proof fn law_new_child_shares_parent(
    scopes: Seq<ScopeView>,
    parent: nat,
    n: Seq<char>,
    v: RuntimeView,
    m: Seq<char>,
    w: RuntimeView,
    any: Seq<char>,
)
    requires
        parent < scopes.len(),
        m != n,
    ensures
        ({
            let child = scopes.len();
            let s1 = scopes.push(empty_scope(Some(parent)));
            let s2 = with_binding(s1, child, n, v);
            let s3 = with_binding(s2, parent, m, w);
            &&& lookup(s1, child, any) == lookup(scopes, parent, any)
            &&& lookup(s2, child, n) == Some(v)
            &&& lookup(s2, parent, any) == lookup(scopes, parent, any)
            &&& lookup(s3, child, m) == Some(w)
        }),
{
    let child = scopes.len();
    let s1 = scopes.push(empty_scope(Some(parent)));
    let s2 = with_binding(s1, child, n, v);
    law_child_sees_parent(scopes, parent, any);
    law_get_after_add(s1, child, n, v);
    law_add_unseen_from_older_scopes(s1, child, n, v, parent, any);
    lemma_lookup_after_push(scopes, empty_scope(Some(parent)), parent, any);
    assert(!s2[child as int].bindings.contains_key(m));
    law_child_sees_later_parent_binding(s2, child, parent, m, w);
}

/// Adding a scope changes nothing of what the scopes already there read.
pub proof fn lemma_lookup_after_push(scopes: Seq<ScopeView>, scope: ScopeView, env: nat, name: Seq<char>)
    requires
        env < scopes.len(),
    ensures
        lookup(scopes.push(scope), env, name) == lookup(scopes, env, name),
    decreases env,
{
    if let Some(p) = scopes[env as int].parent {
        if p < env {
            lemma_lookup_after_push(scopes, scope, p, name);
        }
    }
}

} // verus!
