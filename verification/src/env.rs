//! Variable scopes for running programs: a stack of layers, each binding
//! names to values. Lookups and changes go to the top layer; a nested layer
//! starts as a copy of the one below it and can be folded back into it.
use vstd::prelude::*;

verus! {

/// Flags that tell a running loop to stop, or to go on with its next round.
#[derive(Clone, Copy, Debug, Default)]
pub struct LoopControl {
    pub should_break: bool,
    pub should_continue: bool,
}

/// Whether no two bindings of `vs` have the same name.
pub open spec fn names_unique<V>(vs: Seq<(String, V)>) -> bool {
    forall|i: int, j: int| 0 <= i < j < vs.len() ==> #[trigger] vs[i].0@ != #[trigger] vs[j].0@
}

/// Whether a binding of `vs` has the name `k`.
pub open spec fn binds<V>(vs: Seq<(String, V)>, k: Seq<char>) -> bool {
    exists|i: int| 0 <= i < vs.len() && #[trigger] vs[i].0@ == k
}

/// The map from names to values of a list of bindings.
pub open spec fn bindings_map<V>(vs: Seq<(String, V)>) -> Map<Seq<char>, V> {
    Map::new(
        |k: Seq<char>| binds(vs, k),
        |k: Seq<char>| vs[choose|i: int| 0 <= i < vs.len() && #[trigger] vs[i].0@ == k].1,
    )
}

/// In a list of bindings with unique names, the binding at `i` gives the
/// map's value for its name.
proof fn lemma_binding_at<V>(vs: Seq<(String, V)>, i: int)
    requires
        names_unique(vs),
        0 <= i < vs.len(),
    ensures
        bindings_map(vs).contains_key(vs[i].0@),
        bindings_map(vs)[vs[i].0@] == vs[i].1,
{
    let k = vs[i].0@;
    assert(binds(vs, k));
    let j = choose|j: int| 0 <= j < vs.len() && #[trigger] vs[j].0@ == k;
    if j != i {
        if j < i {
            assert(vs[j].0@ != vs[i].0@);
        } else {
            assert(vs[i].0@ != vs[j].0@);
        }
    }
}

/// One layer of variables, each name bound at most once.
pub struct Context<V> {
    variables: Vec<(String, V)>,
}

impl<V> View for Context<V> {
    type V = Map<Seq<char>, V>;

    closed spec fn view(&self) -> Map<Seq<char>, V> {
        bindings_map(self.variables@)
    }
}

impl<V> Context<V> {
    /// The layer's invariant: no name is bound twice.
    pub closed spec fn wf(&self) -> bool {
        names_unique(self.variables@)
    }

    /// A layer with no variables.
    pub fn new() -> (r: Context<V>)
        ensures
            r.wf(),
            r@ == Map::<Seq<char>, V>::empty(),
    {
        let r = Context { variables: Vec::new() };
        assert(r@ =~= Map::<Seq<char>, V>::empty());
        r
    }

    /// The position of the binding of `name`, if it is bound.
    fn find(&self, name: &String) -> (r: Option<usize>)
        requires
            self.wf(),
        ensures
            r is Some <==> self@.contains_key(name@),
            r matches Some(i) ==> i < self.variables@.len() && self.variables@[i as int].0@ == name@
                && self.variables@[i as int].1 == self@[name@],
    {
        let mut i: usize = 0;
        while i < self.variables.len()
            invariant
                self.wf(),
                i <= self.variables@.len(),
                forall|j: int| 0 <= j < i ==> #[trigger] self.variables@[j].0@ != name@,
            decreases self.variables@.len() - i,
        {
            if self.variables[i].0 == *name {
                proof {
                    lemma_binding_at(self.variables@, i as int);
                }
                return Some(i);
            }
            i = i + 1;
        }
        None
    }

    /// The value bound to `name`, if any.
    pub fn get(&self, name: &String) -> (r: Option<&V>)
        requires
            self.wf(),
        ensures
            r == (if self@.contains_key(name@) {
                Some(&self@[name@])
            } else {
                None
            }),
    {
        match self.find(name) {
            Some(i) => Some(&self.variables[i].1),
            None => None,
        }
    }

    /// Binds `name` to `value`, replacing any value it had.
    pub fn insert(&mut self, name: String, value: V)
        requires
            old(self).wf(),
        ensures
            final(self).wf(),
            final(self)@ == old(self)@.insert(name@, value),
    {
        let ghost k = name@;
        let ghost before = self.variables@;
        match self.find(&name) {
            Some(i) => {
                self.variables.set(i, (name, value));
                proof {
                    let after = self.variables@;
                    assert forall|a: int, b: int| 0 <= a < b < after.len() implies #[trigger] after[a].0@
                        != #[trigger] after[b].0@ by {
                        assert(before[a].0@ != before[b].0@);
                    }
                    assert forall|q: Seq<char>| binds(after, q) == (binds(before, q) || q == k) by {
                        if binds(before, q) {
                            let j = choose|j: int| 0 <= j < before.len() && #[trigger] before[j].0@ == q;
                            assert(after[j].0@ == q);
                        }
                        if binds(after, q) {
                            let j = choose|j: int| 0 <= j < after.len() && #[trigger] after[j].0@ == q;
                            if j != i {
                                assert(before[j].0@ == q);
                            }
                        }
                    }
                    assert forall|q: Seq<char>| #[trigger] binds(after, q) implies bindings_map(after)[q]
                        == old(self)@.insert(k, value)[q] by {
                        let j = choose|j: int| 0 <= j < after.len() && #[trigger] after[j].0@ == q;
                        lemma_binding_at(after, j);
                        if q != k {
                            assert(before[j].0@ == q);
                            lemma_binding_at(before, j);
                        }
                    }
                    assert(self@ =~= old(self)@.insert(k, value));
                }
            },
            None => {
                self.variables.push((name, value));
                proof {
                    let after = self.variables@;
                    assert forall|a: int, b: int| 0 <= a < b < after.len() implies #[trigger] after[a].0@
                        != #[trigger] after[b].0@ by {
                        if b == before.len() {
                            if after[a].0@ == k {
                                assert(before[a].0@ == k);
                                assert(binds(before, k));
                            }
                        } else {
                            assert(before[a].0@ != before[b].0@);
                        }
                    }
                    assert forall|q: Seq<char>| binds(after, q) == (binds(before, q) || q == k) by {
                        if binds(before, q) {
                            let j = choose|j: int| 0 <= j < before.len() && #[trigger] before[j].0@ == q;
                            assert(after[j].0@ == q);
                        }
                        if q == k {
                            assert(after[before.len() as int].0@ == q);
                        }
                        if binds(after, q) {
                            let j = choose|j: int| 0 <= j < after.len() && #[trigger] after[j].0@ == q;
                            if j < before.len() {
                                assert(before[j].0@ == q);
                            }
                        }
                    }
                    assert forall|q: Seq<char>| #[trigger] binds(after, q) implies bindings_map(after)[q]
                        == old(self)@.insert(k, value)[q] by {
                        let j = choose|j: int| 0 <= j < after.len() && #[trigger] after[j].0@ == q;
                        lemma_binding_at(after, j);
                        if q != k {
                            assert(before[j].0@ == q);
                            lemma_binding_at(before, j);
                        }
                    }
                    assert(self@ =~= old(self)@.insert(k, value));
                }
            },
        }
    }

    /// Unbinds `name`, giving back the value it had, if any.
    pub fn remove(&mut self, name: &String) -> (r: Option<V>)
        requires
            old(self).wf(),
        ensures
            final(self).wf(),
            final(self)@ == old(self)@.remove(name@),
            r == (if old(self)@.contains_key(name@) {
                Some(old(self)@[name@])
            } else {
                None
            }),
    {
        let ghost k = name@;
        let ghost before = self.variables@;
        match self.find(name) {
            Some(i) => {
                let (_, v) = self.variables.remove(i);
                proof {
                    let after = self.variables@;
                    assert(after =~= before.remove(i as int));
                    assert forall|a: int, b: int| 0 <= a < b < after.len() implies #[trigger] after[a].0@
                        != #[trigger] after[b].0@ by {
                        let a2 = if a < i { a } else { a + 1 };
                        let b2 = if b < i { b } else { b + 1 };
                        assert(before[a2].0@ != before[b2].0@);
                    }
                    assert forall|q: Seq<char>| binds(after, q) == (binds(before, q) && q != k) by {
                        if binds(before, q) && q != k {
                            let j = choose|j: int| 0 <= j < before.len() && #[trigger] before[j].0@ == q;
                            if j < i {
                                assert(after[j].0@ == q);
                            } else {
                                assert(j != i);
                                assert(after[j - 1].0@ == q);
                            }
                        }
                        if binds(after, q) {
                            let j = choose|j: int| 0 <= j < after.len() && #[trigger] after[j].0@ == q;
                            let j2 = if j < i { j } else { j + 1 };
                            assert(before[j2].0@ == q);
                            if q == k {
                                assert(before[i as int].0@ == k);
                                if j2 < i {
                                    assert(before[j2].0@ != before[i as int].0@);
                                } else {
                                    assert(before[i as int].0@ != before[j2].0@);
                                }
                            }
                        }
                    }
                    assert forall|q: Seq<char>| #[trigger] binds(after, q) implies bindings_map(after)[q]
                        == old(self)@.remove(k)[q] by {
                        let j = choose|j: int| 0 <= j < after.len() && #[trigger] after[j].0@ == q;
                        lemma_binding_at(after, j);
                        let j2 = if j < i { j } else { j + 1 };
                        assert(before[j2].0@ == q);
                        lemma_binding_at(before, j2);
                    }
                    assert(self@ =~= old(self)@.remove(k));
                }
                Some(v)
            },
            None => {
                assert(old(self)@.remove(k) =~= old(self)@);
                None
            },
        }
    }
}

impl<V: Clone> Context<V> {
    /// A copy of the layer, each value cloned.
    pub fn duplicate(&self) -> (r: Context<V>)
        requires
            self.wf(),
        ensures
            r.wf(),
            r@.dom() == self@.dom(),
            forall|k: Seq<char>| #[trigger] self@.contains_key(k) ==> cloned(self@[k], r@[k]),
    {
        let mut vars: Vec<(String, V)> = Vec::new();
        let mut i: usize = 0;
        while i < self.variables.len()
            invariant
                self.wf(),
                i <= self.variables@.len(),
                vars@.len() == i,
                forall|j: int| 0 <= j < i ==> #[trigger] vars@[j].0@ == self.variables@[j].0@,
                forall|j: int| 0 <= j < i ==> cloned(self.variables@[j].1, #[trigger] vars@[j].1),
            decreases self.variables@.len() - i,
        {
            let name = self.variables[i].0.clone();
            let value = self.variables[i].1.clone();
            vars.push((name, value));
            i = i + 1;
        }
        let r = Context { variables: vars };
        proof {
            let a = self.variables@;
            let b = r.variables@;
            assert forall|x: int, y: int| 0 <= x < y < b.len() implies #[trigger] b[x].0@ != #[trigger] b[y].0@ by {
                assert(a[x].0@ != a[y].0@);
            }
            assert forall|q: Seq<char>| binds(b, q) == binds(a, q) by {
                if binds(a, q) {
                    let j = choose|j: int| 0 <= j < a.len() && #[trigger] a[j].0@ == q;
                    assert(b[j].0@ == q);
                }
                if binds(b, q) {
                    let j = choose|j: int| 0 <= j < b.len() && #[trigger] b[j].0@ == q;
                    assert(a[j].0@ == q);
                }
            }
            assert(r@.dom() =~= self@.dom());
            assert forall|k: Seq<char>| #[trigger] self@.contains_key(k) implies cloned(self@[k], r@[k]) by {
                let j = choose|j: int| 0 <= j < a.len() && #[trigger] a[j].0@ == k;
                lemma_binding_at(a, j);
                assert(b[j].0@ == k);
                lemma_binding_at(b, j);
            }
        }
        r
    }
}

/// The variable scopes of a running program: a stack of layers, the last
/// one active.
pub struct Env<V> {
    venv: Vec<Context<V>>,
}

/// The layers with `name` bound to `value` in the top one.
pub open spec fn defined<V>(ls: Seq<Map<Seq<char>, V>>, name: Seq<char>, value: V) -> Seq<
    Map<Seq<char>, V>,
> {
    ls.update(ls.len() - 1, ls.last().insert(name, value))
}

/// What `name` is bound to in the top layer, if anything.
pub open spec fn looked_up<V>(ls: Seq<Map<Seq<char>, V>>, name: Seq<char>) -> Option<V> {
    if ls.last().contains_key(name) {
        Some(ls.last()[name])
    } else {
        None
    }
}

/// The layers with `name` unbound in the top one.
pub open spec fn removed<V>(ls: Seq<Map<Seq<char>, V>>, name: Seq<char>) -> Seq<
    Map<Seq<char>, V>,
> {
    ls.update(ls.len() - 1, ls.last().remove(name))
}

/// The layers with the top one folded into the one below it.
pub open spec fn flattened<V>(ls: Seq<Map<Seq<char>, V>>) -> Seq<Map<Seq<char>, V>> {
    ls.drop_last().update(ls.len() - 2, ls.last())
}

impl<V> Env<V> {
    /// The layers, bottom first.
    pub closed spec fn layers(&self) -> Seq<Map<Seq<char>, V>> {
        Seq::new(self.venv@.len(), |i: int| self.venv@[i]@)
    }

    /// The invariant: every layer binds each name at most once.
    pub closed spec fn wf(&self) -> bool {
        forall|i: int| 0 <= i < self.venv@.len() ==> (#[trigger] self.venv@[i]).wf()
    }

    /// Scopes with one empty layer.
    pub fn new() -> (r: Env<V>)
        ensures
            r.wf(),
            r.layers() == seq![Map::<Seq<char>, V>::empty()],
    {
        let mut env = Env { venv: Vec::new() };
        env.initialize_empty_scope();
        assert(env.layers() =~= seq![Map::<Seq<char>, V>::empty()]);
        env
    }

    /// Pushes an empty layer, as for the body of a procedure.
    pub fn initialize_empty_scope(&mut self)
        requires
            old(self).wf(),
        ensures
            final(self).wf(),
            final(self).layers() == old(self).layers().push(Map::empty()),
    {
        self.venv.push(Context::new());
        assert(self.layers() =~= old(self).layers().push(Map::empty()));
    }

    /// Folds the top layer into the one below it, replacing that one.
    pub fn flatten_nested_layer(&mut self)
        requires
            old(self).wf(),
            old(self).layers().len() >= 2,
        ensures
            final(self).wf(),
            final(self).layers() == flattened(old(self).layers()),
    {
        let context = self.scrape();
        assert(self.layers().len() == self.venv@.len());
        let n = self.venv.len();
        self.venv.set(n - 1, context);
        assert(self.layers() =~= flattened(old(self).layers()));
    }

    /// Removes the top layer and gives it back.
    pub fn scrape(&mut self) -> (r: Context<V>)
        requires
            old(self).wf(),
            old(self).layers().len() >= 1,
        ensures
            final(self).wf(),
            r.wf(),
            r@ == old(self).layers().last(),
            final(self).layers() == old(self).layers().drop_last(),
    {
        let r = self.venv.pop().unwrap();
        assert(self.layers() =~= old(self).layers().drop_last());
        r
    }

    /// Binds `name` to `value` in the top layer.
    pub fn define(&mut self, name: String, value: V)
        requires
            old(self).wf(),
            old(self).layers().len() >= 1,
        ensures
            final(self).wf(),
            final(self).layers() == defined(old(self).layers(), name@, value),
    {
        let mut top = self.venv.pop().unwrap();
        top.insert(name, value);
        self.venv.push(top);
        assert(self.layers() =~= defined(old(self).layers(), name@, value));
    }

    /// The value of `var` in the top layer, if it is bound there.
    pub fn lookup_name(&self, var: &str) -> (r: Option<&V>)
        requires
            self.wf(),
            self.layers().len() >= 1,
        ensures
            r == (match looked_up(self.layers(), var@) {
                Some(v) => Some(&v),
                None => None::<&V>,
            }),
    {
        let key = String::from_str(var);
        let n = self.venv.len();
        self.venv[n - 1].get(&key)
    }

    /// Unbinds `name` in the top layer, giving back its value, if any.
    pub fn remove(&mut self, name: &str) -> (r: Option<V>)
        requires
            old(self).wf(),
            old(self).layers().len() >= 1,
        ensures
            final(self).wf(),
            r == looked_up(old(self).layers(), name@),
            final(self).layers() == removed(old(self).layers(), name@),
    {
        let key = String::from_str(name);
        let mut top = self.venv.pop().unwrap();
        let r = top.remove(&key);
        self.venv.push(top);
        assert(self.layers() =~= removed(old(self).layers(), name@));
        r
    }

    /// Whether `name` is bound in the top layer.
    pub fn contains(&self, name: &str) -> (r: bool)
        requires
            self.wf(),
            self.layers().len() >= 1,
        ensures
            r == self.layers().last().contains_key(name@),
    {
        self.lookup_name(name).is_some()
    }
}

impl<V: Clone> Env<V> {
    /// Pushes a copy of the top layer, as for a block inside a procedure.
    pub fn create_nested_layer(&mut self)
        requires
            old(self).wf(),
            old(self).layers().len() >= 1,
        ensures
            final(self).wf(),
            final(self).layers().len() == old(self).layers().len() + 1,
            final(self).layers().drop_last() == old(self).layers(),
            final(self).layers().last().dom() == old(self).layers().last().dom(),
            forall|k: Seq<char>| #[trigger]
                old(self).layers().last().contains_key(k) ==> cloned(
                    old(self).layers().last()[k],
                    final(self).layers().last()[k],
                ),
    {
        let n = self.venv.len();
        let enclosing = self.venv[n - 1].duplicate();
        self.venv.push(enclosing);
        assert(self.layers().drop_last() =~= old(self).layers());
    }
}

// ---------------------------------------------------------------------------
// Laws
// ---------------------------------------------------------------------------
/// A variable reads back the value it was last given.
pub proof fn lemma_define_then_lookup<V>(ls: Seq<Map<Seq<char>, V>>, name: Seq<char>, value: V)
    requires
        ls.len() >= 1,
    ensures
        looked_up(defined(ls, name, value), name) == Some(value),
{
}

/// Defining one variable leaves every other variable as it was.
pub proof fn lemma_define_keeps_others<V>(
    ls: Seq<Map<Seq<char>, V>>,
    name: Seq<char>,
    value: V,
    other: Seq<char>,
)
    requires
        ls.len() >= 1,
        other != name,
    ensures
        looked_up(defined(ls, name, value), other) == looked_up(ls, other),
{
}

/// A variable that was removed is no longer bound, and no other variable
/// changes.
pub proof fn lemma_remove_then_lookup<V>(ls: Seq<Map<Seq<char>, V>>, name: Seq<char>, other: Seq<char>)
    requires
        ls.len() >= 1,
    ensures
        looked_up(removed(ls, name), name) == None::<V>,
        other != name ==> looked_up(removed(ls, name), other) == looked_up(ls, other),
{
}

/// Entering an empty scope and leaving it again restores the scopes as they
/// were, and what was left behind is the empty layer.
pub proof fn lemma_scope_enter_leave<V>(ls: Seq<Map<Seq<char>, V>>)
    ensures
        ls.push(Map::empty()).drop_last() == ls,
        ls.push(Map::empty()).last() == Map::<Seq<char>, V>::empty(),
{
    assert(ls.push(Map::empty()).drop_last() =~= ls);
}

/// A variable defined in a nested layer is still there once the layer is
/// folded back into the one below.
pub proof fn lemma_flatten_keeps_definition<V>(
    ls: Seq<Map<Seq<char>, V>>,
    name: Seq<char>,
    value: V,
)
    requires
        ls.len() >= 2,
    ensures
        looked_up(flattened(defined(ls, name, value)), name) == Some(value),
        flattened(defined(ls, name, value)).len() == ls.len() - 1,
{
}

} // verus!
