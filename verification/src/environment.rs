use vstd::prelude::*;

use crate::error::{RuntimeError, RuntimeErrorView};

verus! {

/// The bindings of a list of (name, value) pairs whose names are distinct.
pub open spec fn bindings<V>(vars: Seq<(String, V)>) -> Map<Seq<char>, V> {
    Map::new(
        |k: Seq<char>| exists|i: int| 0 <= i < vars.len() && (#[trigger] vars[i]).0@ == k,
        |k: Seq<char>| vars[choose|i: int| 0 <= i < vars.len() && (#[trigger] vars[i]).0@ == k].1,
    )
}

/// No name occurs twice.
pub open spec fn distinct_names<V>(vars: Seq<(String, V)>) -> bool {
    forall|i: int, j: int|
        0 <= i < vars.len() && 0 <= j < vars.len() && i != j ==> (#[trigger] vars[i]).0@
            != (#[trigger] vars[j]).0@
}

proof fn lemma_binding_at<V>(vars: Seq<(String, V)>, i: int)
    requires
        distinct_names(vars),
        0 <= i < vars.len(),
    ensures
        bindings(vars).contains_key(vars[i].0@),
        bindings(vars)[vars[i].0@] == vars[i].1,
{
    let k = vars[i].0@;
    assert(bindings(vars).dom().contains(k));
    let j = choose|j: int| 0 <= j < vars.len() && (#[trigger] vars[j]).0@ == k;
    assert(j == i);
}

proof fn lemma_update_binding<V>(vars: Seq<(String, V)>, i: int, key: String, value: V)
    requires
        distinct_names(vars),
        0 <= i < vars.len(),
        vars[i].0@ == key@,
    ensures
        distinct_names(vars.update(i, (key, value))),
        bindings(vars.update(i, (key, value))) == bindings(vars).insert(key@, value),
{
    let nv = vars.update(i, (key, value));
    assert forall|a: int, b: int|
        0 <= a < nv.len() && 0 <= b < nv.len() && a != b implies (#[trigger] nv[a]).0@
        != (#[trigger] nv[b]).0@ by {
        assert(nv[a].0@ == vars[a].0@);
        assert(nv[b].0@ == vars[b].0@);
    }
    assert forall|k: Seq<char>|
        #[trigger] bindings(nv).contains_key(k) == bindings(vars).insert(key@, value).contains_key(
            k,
        ) by {
        if bindings(vars).contains_key(k) {
            let j = choose|j: int| 0 <= j < vars.len() && (#[trigger] vars[j]).0@ == k;
            assert(nv[j].0@ == k);
        }
        if bindings(nv).contains_key(k) {
            let j = choose|j: int| 0 <= j < nv.len() && (#[trigger] nv[j]).0@ == k;
            assert(vars[j].0@ == k);
        }
    }
    assert forall|k: Seq<char>| #[trigger] bindings(nv).contains_key(k) implies bindings(nv)[k]
        == bindings(vars).insert(key@, value)[k] by {
        let j = choose|j: int| 0 <= j < nv.len() && (#[trigger] nv[j]).0@ == k;
        lemma_binding_at(nv, j);
        if k != key@ {
            lemma_binding_at(vars, j);
        }
    }
    assert(bindings(nv) =~= bindings(vars).insert(key@, value));
}

proof fn lemma_push_binding<V>(vars: Seq<(String, V)>, key: String, value: V)
    requires
        distinct_names(vars),
        !bindings(vars).contains_key(key@),
    ensures
        distinct_names(vars.push((key, value))),
        bindings(vars.push((key, value))) == bindings(vars).insert(key@, value),
{
    let nv = vars.push((key, value));
    assert forall|a: int, b: int|
        0 <= a < nv.len() && 0 <= b < nv.len() && a != b implies (#[trigger] nv[a]).0@
        != (#[trigger] nv[b]).0@ by {
        if a < vars.len() {
            assert(nv[a] == vars[a]);
        }
        if b < vars.len() {
            assert(nv[b] == vars[b]);
        }
    }
    assert forall|k: Seq<char>|
        #[trigger] bindings(nv).contains_key(k) == bindings(vars).insert(key@, value).contains_key(
            k,
        ) by {
        if bindings(vars).contains_key(k) {
            let j = choose|j: int| 0 <= j < vars.len() && (#[trigger] vars[j]).0@ == k;
            assert(nv[j].0@ == k);
        }
        if k == key@ {
            assert(nv[vars.len() as int].0@ == k);
        }
        if bindings(nv).contains_key(k) && k != key@ {
            let j = choose|j: int| 0 <= j < nv.len() && (#[trigger] nv[j]).0@ == k;
            assert(vars[j].0@ == k);
        }
    }
    assert forall|k: Seq<char>| #[trigger] bindings(nv).contains_key(k) implies bindings(nv)[k]
        == bindings(vars).insert(key@, value)[k] by {
        let j = choose|j: int| 0 <= j < nv.len() && (#[trigger] nv[j]).0@ == k;
        lemma_binding_at(nv, j);
        if k != key@ {
            assert(j < vars.len());
            lemma_binding_at(vars, j);
        }
    }
    assert(bindings(nv) =~= bindings(vars).insert(key@, value));
}

/// The value bound to `name` in the innermost scope that binds it.
pub open spec fn lookup<V>(scopes: Seq<Map<Seq<char>, V>>, name: Seq<char>) -> Option<V>
    decreases scopes.len(),
{
    if scopes.len() == 0 {
        None
    } else if scopes[0].contains_key(name) {
        Some(scopes[0][name])
    } else {
        lookup(scopes.drop_first(), name)
    }
}

/// The scopes after rebinding `name` to `value` in the innermost scope that
/// binds it; `None` when no scope does.
pub open spec fn reassign<V>(scopes: Seq<Map<Seq<char>, V>>, name: Seq<char>, value: V) -> Option<
    Seq<Map<Seq<char>, V>>,
>
    decreases scopes.len(),
{
    if scopes.len() == 0 {
        None
    } else if scopes[0].contains_key(name) {
        Some(scopes.update(0, scopes[0].insert(name, value)))
    } else {
        match reassign(scopes.drop_first(), name, value) {
            Some(rest) => Some(seq![scopes[0]] + rest),
            None => None,
        }
    }
}

/// The scopes after binding `name` to `value` in the innermost scope.
pub open spec fn bind<V>(scopes: Seq<Map<Seq<char>, V>>, name: Seq<char>, value: V) -> Seq<
    Map<Seq<char>, V>,
> {
    scopes.update(0, scopes[0].insert(name, value))
}

/// The error for a name that no scope binds.
pub open spec fn undefined(name: Seq<char>) -> RuntimeErrorView {
    RuntimeErrorView::UndefinedVariable { line: 0, name }
}

/// `b` holds, scope for scope and under the same names, clones of the values of `a`.
pub open spec fn scopes_cloned<V: Clone>(a: Seq<Map<Seq<char>, V>>, b: Seq<Map<Seq<char>, V>>) -> bool {
    &&& a.len() == b.len()
    &&& forall|i: int|
        0 <= i < a.len() ==> {
            &&& (#[trigger] a[i]).dom() == b[i].dom()
            &&& forall|k: Seq<char>| a[i].contains_key(k) ==> cloned(a[i][k], #[trigger] b[i][k])
        }
}

proof fn lemma_bindings_cloned<V: Clone>(vars: Seq<(String, V)>, nv: Seq<(String, V)>)
    requires
        distinct_names(vars),
        vars.len() == nv.len(),
        forall|j: int| 0 <= j < vars.len() ==> (#[trigger] nv[j]).0@ == vars[j].0@,
        forall|j: int| 0 <= j < vars.len() ==> cloned(vars[j].1, (#[trigger] nv[j]).1),
    ensures
        distinct_names(nv),
        bindings(vars).dom() == bindings(nv).dom(),
        forall|k: Seq<char>|
            bindings(vars).contains_key(k) ==> cloned(bindings(vars)[k], #[trigger] bindings(nv)[k]),
{
    assert forall|a: int, b: int|
        0 <= a < nv.len() && 0 <= b < nv.len() && a != b implies (#[trigger] nv[a]).0@
        != (#[trigger] nv[b]).0@ by {
        assert(vars[a].0@ != vars[b].0@);
    }
    assert forall|k: Seq<char>| bindings(vars).contains_key(k) == bindings(nv).contains_key(k) by {
        if bindings(vars).contains_key(k) {
            let j = choose|j: int| 0 <= j < vars.len() && (#[trigger] vars[j]).0@ == k;
            assert(nv[j].0@ == k);
        }
        if bindings(nv).contains_key(k) {
            let j = choose|j: int| 0 <= j < nv.len() && (#[trigger] nv[j]).0@ == k;
            assert(vars[j].0@ == k);
        }
    }
    assert(bindings(vars).dom() =~= bindings(nv).dom());
    assert forall|k: Seq<char>| bindings(vars).contains_key(k) implies cloned(
        bindings(vars)[k],
        #[trigger] bindings(nv)[k],
    ) by {
        let j = choose|j: int| 0 <= j < vars.len() && (#[trigger] vars[j]).0@ == k;
        lemma_binding_at(vars, j);
        assert(nv[j].0@ == k);
        lemma_binding_at(nv, j);
    }
}

/// Nested scopes of variables: a scope's own bindings, and the scope that
/// encloses it.
#[derive(Debug)]
pub struct Environment<V> {
    parent: Option<Box<Environment<V>>>,
    variables: Vec<(String, V)>,
}

impl<V> Environment<V> {
    /// The scopes, innermost first.
    pub closed spec fn scopes(&self) -> Seq<Map<Seq<char>, V>>
        decreases self,
    {
        let own = bindings(self.variables@);
        match self.parent {
            Some(p) => seq![own] + p.scopes(),
            None => seq![own],
        }
    }

    /// No name is bound twice in one scope.
    #[verifier::type_invariant]
    closed spec fn distinct(&self) -> bool {
        distinct_names(self.variables@)
    }

    /// An outermost scope with no bindings.
    pub fn new() -> (env: Self)
        ensures
            env.scopes() == seq![Map::<Seq<char>, V>::empty()],
    {
        let env = Environment { parent: None, variables: Vec::new() };
        assert(bindings(env.variables@) =~= Map::<Seq<char>, V>::empty());
        env
    }

    /// A scope with no bindings inside `parent`.
    pub fn with_parent(parent: Environment<V>) -> (env: Self)
        ensures
            env.scopes() == seq![Map::<Seq<char>, V>::empty()] + parent.scopes(),
    {
        let env = Environment { parent: Some(Box::new(parent)), variables: Vec::new() };
        assert(bindings(env.variables@) =~= Map::<Seq<char>, V>::empty());
        env
    }

    /// The position of `name` among this scope's own variables.
    fn find(&self, name: &String) -> (r: Option<usize>)
        ensures
            match r {
                Some(i) => i < self.variables@.len() && self.variables@[i as int].0@ == name@,
                None => !bindings(self.variables@).contains_key(name@),
            },
    {
        let mut i: usize = 0;
        while i < self.variables.len()
            invariant
                i <= self.variables@.len(),
                forall|j: int| 0 <= j < i ==> (#[trigger] self.variables@[j]).0@ != name@,
            decreases self.variables.len() - i,
        {
            if self.variables[i].0 == *name {
                return Some(i);
            }
            i = i + 1;
        }
        None
    }

    /// The value of `name` in the innermost scope that binds it.
    pub fn get(&self, name: &str) -> (r: Result<&V, RuntimeError>)
        ensures
            match lookup(self.scopes(), name@) {
                Some(v) => r matches Ok(x) && *x == v,
                None => r matches Err(e) && e@ == undefined(name@),
            },
        decreases self,
    {
        proof {
            use_type_invariant(self);
            assert(self.scopes()[0] == bindings(self.variables@));
            assert(self.parent is None ==> self.scopes().drop_first() =~= Seq::<
                Map<Seq<char>, V>,
            >::empty());
        }
        let key = name.to_owned();
        match self.find(&key) {
            Some(i) => {
                proof {
                    lemma_binding_at(self.variables@, i as int);
                }
                Ok(&self.variables[i].1)
            },
            None => match &self.parent {
                Some(parent) => {
                    assert(self.scopes().drop_first() =~= parent.scopes());
                    parent.get(name)
                },
                None => Err(RuntimeError::UndefinedVariable { line: 0, name: name.to_owned() }),
            },
        }
    }

    /// Binds `name` to `value` in this scope.
    pub fn set(&mut self, name: &str, value: V)
        ensures
            final(self).scopes() == bind(old(self).scopes(), name@, value),
    {
        proof {
            use_type_invariant(&*self);
        }
        let key = name.to_owned();
        match self.find(&key) {
            Some(i) => {
                proof {
                    lemma_update_binding(self.variables@, i as int, key, value);
                }
                let mut vars = Vec::new();
                std::mem::swap(&mut vars, &mut self.variables);
                vars.set(i, (key, value));
                self.variables = vars;
            },
            None => {
                proof {
                    lemma_push_binding(self.variables@, key, value);
                }
                let mut vars = Vec::new();
                std::mem::swap(&mut vars, &mut self.variables);
                vars.push((key, value));
                self.variables = vars;
            },
        }
        proof {
            assert(self.scopes() =~= old(self).scopes().update(
                0,
                old(self).scopes()[0].insert(name@, value),
            ));
        }
    }

    /// Rebinds `name` to `value` in the innermost scope that binds it; an
    /// error, and no change, when no scope binds it.
    pub fn assign(&mut self, name: &str, value: V) -> (r: Result<(), RuntimeError>)
        ensures
            match reassign(old(self).scopes(), name@, value) {
                Some(s) => r is Ok && final(self).scopes() == s,
                None => r matches Err(e) && e@ == undefined(name@) && final(self).scopes()
                    == old(self).scopes(),
            },
        decreases old(self).scopes().len(),
    {
        proof {
            use_type_invariant(&*self);
        }
        let key = name.to_owned();
        match self.find(&key) {
            Some(i) => {
                proof {
                    lemma_update_binding(self.variables@, i as int, key, value);
                }
                let mut vars = Vec::new();
                std::mem::swap(&mut vars, &mut self.variables);
                vars.set(i, (key, value));
                self.variables = vars;
                proof {
                    assert(self.scopes() =~= old(self).scopes().update(
                        0,
                        old(self).scopes()[0].insert(name@, value),
                    ));
                }
                Ok(())
            },
            None => {
                let mut parent = None;
                std::mem::swap(&mut parent, &mut self.parent);
                match parent {
                    Some(mut p) => {
                        assert(old(self).scopes().drop_first() =~= p.scopes());
                        let r = p.assign(name, value);
                        self.parent = Some(p);
                        proof {
                            match reassign(old(self).scopes().drop_first(), name@, value) {
                                Some(rest) => {
                                    assert(self.scopes() =~= seq![old(self).scopes()[0]] + rest);
                                },
                                None => {
                                    assert(self.scopes() =~= old(self).scopes());
                                },
                            }
                        }
                        r
                    },
                    None => Err(
                        RuntimeError::UndefinedVariable { line: 0, name: name.to_owned() },
                    ),
                }
            },
        }
    }
}

impl<V> Environment<V> {
    /// Enters a block: `scope` becomes the current scopes, and the scopes it
    /// replaces are handed back, for `leave_block` to restore.
    pub fn enter_block(&mut self, scope: Environment<V>) -> (previous: Self)
        ensures
            previous.scopes() == old(self).scopes(),
            final(self).scopes() == scope.scopes(),
    {
        let mut previous = scope;
        std::mem::swap(self, &mut previous);
        previous
    }

    /// Leaves a block: the scopes that `enter_block` handed back become the
    /// current ones again, and whatever the block bound is dropped.
    pub fn leave_block(&mut self, previous: Environment<V>)
        ensures
            final(self).scopes() == previous.scopes(),
    {
        *self = previous;
    }
}

impl<V: Clone> Clone for Environment<V> {
    /// A copy of every scope, with each value cloned.
    fn clone(&self) -> (r: Self)
        ensures
            scopes_cloned(self.scopes(), r.scopes()),
        decreases self,
    {
        proof {
            use_type_invariant(self);
        }
        let parent = match &self.parent {
            Some(p) => Some(Box::new((**p).clone())),
            None => None,
        };
        let mut variables: Vec<(String, V)> = Vec::new();
        let mut i: usize = 0;
        while i < self.variables.len()
            invariant
                i <= self.variables@.len(),
                variables@.len() == i,
                forall|j: int| 0 <= j < i ==> (#[trigger] variables@[j]).0@ == self.variables@[j].0@,
                forall|j: int| 0 <= j < i ==> cloned(self.variables@[j].1, (#[trigger] variables@[j]).1),
            decreases self.variables.len() - i,
        {
            let key = self.variables[i].0.clone();
            let value = self.variables[i].1.clone();
            variables.push((key, value));
            i = i + 1;
        }
        proof {
            lemma_bindings_cloned(self.variables@, variables@);
        }
        let r = Environment { parent, variables };
        proof {
            let a = self.scopes();
            let b = r.scopes();
            assert forall|k: int| 0 <= k < a.len() implies {
                &&& (#[trigger] a[k]).dom() == b[k].dom()
                &&& forall|n: Seq<char>| a[k].contains_key(n) ==> cloned(a[k][n], #[trigger] b[k][n])
            } by {
                if k > 0 {
                    let pa = self.parent->0;
                    let pb = r.parent->0;
                    assert(a[k] == pa.scopes()[k - 1]);
                    assert(b[k] == pb.scopes()[k - 1]);
                }
            }
        }
        r
    }
}

} // verus!

verus! {

/// After `set(name, v)`, looking `name` up gives `v`, every other name is
/// looked up as before, and only the innermost scope has changed.
pub proof fn law_lookup_after_set<V>(scopes: Seq<Map<Seq<char>, V>>, name: Seq<char>, v: V, other: Seq<char>)
    requires
        scopes.len() >= 1,
        other != name,
    ensures
        lookup(bind(scopes, name, v), name) == Some(v),
        lookup(bind(scopes, name, v), other) == lookup(scopes, other),
        bind(scopes, name, v).len() == scopes.len(),
        bind(scopes, name, v).drop_first() == scopes.drop_first(),
{
    let s2 = bind(scopes, name, v);
    assert(s2.drop_first() =~= scopes.drop_first());
}

/// `assign` fails exactly when no scope binds the name; when it succeeds,
/// looking the name up gives the new value, and every other name is looked
/// up as before.
pub proof fn law_lookup_after_assign<V>(scopes: Seq<Map<Seq<char>, V>>, name: Seq<char>, v: V, other: Seq<char>)
    requires
        other != name,
    ensures
        reassign(scopes, name, v) is None <==> lookup(scopes, name) is None,
        reassign(scopes, name, v) matches Some(s) ==> {
            &&& lookup(s, name) == Some(v)
            &&& lookup(s, other) == lookup(scopes, other)
            &&& s.len() == scopes.len()
        },
    decreases scopes.len(),
{
    if scopes.len() > 0 {
        if scopes[0].contains_key(name) {
            let s = scopes.update(0, scopes[0].insert(name, v));
            assert(s.drop_first() =~= scopes.drop_first());
        } else {
            law_lookup_after_assign(scopes.drop_first(), name, v, other);
            match reassign(scopes.drop_first(), name, v) {
                Some(rest) => {
                    let s = seq![scopes[0]] + rest;
                    assert(s.drop_first() =~= rest);
                },
                None => {},
            }
        }
    }
}

/// A new, empty innermost scope looks every name up as the enclosing scopes do.
pub proof fn law_new_scope_is_transparent<V>(parent: Seq<Map<Seq<char>, V>>, name: Seq<char>)
    ensures
        lookup(seq![Map::<Seq<char>, V>::empty()] + parent, name) == lookup(parent, name),
{
    assert((seq![Map::<Seq<char>, V>::empty()] + parent).drop_first() =~= parent);
}

/// A block's variables do not outlive it: whatever the block binds or
/// assigns in the scopes it runs in, once `leave_block` restores the scopes
/// that `enter_block` handed back, every name is looked up as before the block.
pub proof fn law_block_variables_do_not_outlive_it<V>(
    before: Seq<Map<Seq<char>, V>>,
    previous: Seq<Map<Seq<char>, V>>,
    after: Seq<Map<Seq<char>, V>>,
    name: Seq<char>,
)
    requires
        previous == before,
        after == previous,
    ensures
        after == before,
        lookup(after, name) == lookup(before, name),
{
}

} // verus!
