//! Environments: a store of scopes. A scope maps names to values and may
//! name an older scope as the one around it; a name that a scope does not
//! bind is looked up in the scope around it.

use super::{object_view, Object, ObjectView};
use vstd::prelude::*;

verus! {

/// What a scope is: its bindings, and the scope around it.
pub struct ScopeView {
    pub store: Map<Seq<char>, ObjectView>,
    pub outer: Option<nat>,
}

impl ScopeView {
    /// A scope without bindings.
    pub open spec fn empty(outer: Option<nat>) -> ScopeView {
        ScopeView { store: Map::empty(), outer }
    }
}

/// The value of `name` in scope `scope` of `env`: that of the first scope
/// that binds it, going from `scope` outwards. A scope is left for the
/// scope around it only where that one is older.
pub open spec fn lookup(env: Seq<ScopeView>, scope: nat, name: Seq<char>) -> Option<ObjectView>
    decreases scope,
{
    if scope >= env.len() {
        None
    } else if env[scope as int].store.contains_key(name) {
        Some(env[scope as int].store[name])
    } else {
        match env[scope as int].outer {
            Some(outer) => if outer < scope {
                lookup(env, outer, name)
            } else {
                None
            },
            None => None,
        }
    }
}

/// The store after `name` is bound to `value` in scope `scope`. Binding in
/// a scope that does not exist changes nothing.
pub open spec fn bind(env: Seq<ScopeView>, scope: nat, name: Seq<char>, value: ObjectView) -> Seq<
    ScopeView,
> {
    if scope < env.len() {
        env.update(
            scope as int,
            ScopeView {
                store: env[scope as int].store.insert(name, value),
                outer: env[scope as int].outer,
            },
        )
    } else {
        env
    }
}

/// The store with one more scope, empty, inside `outer`.
pub open spec fn enclose(env: Seq<ScopeView>, outer: nat) -> Seq<ScopeView> {
    env.push(ScopeView::empty(Some(outer)))
}

/// The map that a list of bindings stands for: a later binding of a name
/// replaces an earlier one.
pub open spec fn bindings(entries: Seq<(String, Object)>) -> Map<Seq<char>, ObjectView>
    decreases entries.len(),
{
    if entries.len() == 0 {
        Map::empty()
    } else {
        bindings(entries.drop_last()).insert(entries.last().0@, object_view(entries.last().1))
    }
}

/// A binding that replaces the last binding of its name changes the map as
/// a new binding of that name would.
proof fn lemma_bindings_update(entries: Seq<(String, Object)>, i: int, entry: (String, Object))
    requires
        0 <= i < entries.len(),
        entries[i].0@ == entry.0@,
        forall|j: int| i < j < entries.len() ==> entries[j].0@ != entry.0@,
    ensures
        bindings(entries.update(i, entry)) == bindings(entries).insert(
            entry.0@,
            object_view(entry.1),
        ),
    decreases entries.len(),
{
    let updated = entries.update(i, entry);
    if i == entries.len() - 1 {
        assert(updated.drop_last() =~= entries.drop_last());
        assert(bindings(updated) =~= bindings(entries).insert(entry.0@, object_view(entry.1)));
    } else {
        assert(updated.drop_last() =~= entries.drop_last().update(i, entry));
        assert(updated.last() == entries.last());
        lemma_bindings_update(entries.drop_last(), i, entry);
        assert(bindings(updated) =~= bindings(entries).insert(entry.0@, object_view(entry.1)));
    }
}

#[derive(Debug, PartialEq)]
struct Scope {
    store: Vec<(String, Object)>,
    outer: Option<usize>,
}

impl Scope {
    spec fn view(&self) -> ScopeView {
        ScopeView {
            store: bindings(self.store@),
            outer: match self.outer {
                Some(outer) => Some(outer as nat),
                None => None,
            },
        }
    }

    /// The place of the last binding of `name`.
    fn find(&self, name: &String) -> (place: Option<usize>)
        ensures
            match place {
                Some(i) => i < self.store@.len() && self.store@[i as int].0@ == name@
                    && self@.store.contains_key(name@) && self@.store[name@] == object_view(
                    self.store@[i as int].1,
                ) && forall|j: int| i < j < self.store@.len() ==> self.store@[j].0@ != name@,
                None => !self@.store.contains_key(name@),
            },
    {
        let mut i = self.store.len();
        assert(self.store@.take(i as int) =~= self.store@);
        while i > 0
            invariant
                i <= self.store.len(),
                bindings(self.store@).contains_key(name@) == bindings(
                    self.store@.take(i as int),
                ).contains_key(name@),
                bindings(self.store@).contains_key(name@) ==> bindings(self.store@)[name@]
                    == bindings(self.store@.take(i as int))[name@],
                forall|j: int| i <= j < self.store@.len() ==> self.store@[j].0@ != name@,
            decreases i,
        {
            let ghost front = self.store@.take(i as int);
            assert(front.drop_last() =~= self.store@.take(i - 1));
            assert(front.last() == self.store@[i - 1]);
            i = i - 1;
            if self.store[i].0 == *name {
                return Some(i);
            }
        }
        assert(self.store@.take(0) =~= Seq::<(String, Object)>::empty());
        None
    }
}

#[derive(Debug, PartialEq)]
pub struct Environment {
    scopes: Vec<Scope>,
}

/// The scope that a new environment starts with, around all others.
pub const GLOBAL_SCOPE: usize = 0;

impl View for Environment {
    type V = Seq<ScopeView>;

    closed spec fn view(&self) -> Seq<ScopeView> {
        Seq::new(self.scopes@.len(), |i: int| self.scopes@[i]@)
    }
}

impl Environment {
    /// A store with one scope, empty and with none around it.
    pub fn new() -> (env: Environment)
        ensures
            env@ == seq![ScopeView::empty(None)],
    {
        let mut scopes: Vec<Scope> = Vec::new();
        scopes.push(Scope { store: Vec::new(), outer: None });
        let env = Environment { scopes };
        assert(env@ =~= seq![ScopeView::empty(None)]);
        env
    }

    /// Adds an empty scope inside `outer` and hands out its place.
    pub fn new_enclosed_environment(&mut self, outer: usize) -> (scope: usize)
        ensures
            final(self)@ == enclose(old(self)@, outer as nat),
            scope == old(self)@.len(),
    {
        let scope = self.scopes.len();
        self.scopes.push(Scope { store: Vec::new(), outer: Some(outer) });
        assert(final(self)@ =~= enclose(old(self)@, outer as nat));
        scope
    }

    /// The value of `name` as seen from `scope`, if the scope or one around
    /// it binds the name.
    pub fn get(&self, scope: usize, name: &String) -> (value: Option<Object>)
        ensures
            match value {
                Some(found) => lookup(self@, scope as nat, name@) == Some(found@),
                None => lookup(self@, scope as nat, name@) is None,
            },
    {
        let mut current = scope;
        loop
            invariant
                lookup(self@, current as nat, name@) == lookup(self@, scope as nat, name@),
            decreases current,
        {
            if current >= self.scopes.len() {
                return None;
            }
            match self.scopes[current].find(name) {
                Some(i) => {
                    return Some(self.scopes[current].store[i].1.clone());
                },
                None => {},
            }
            match self.scopes[current].outer {
                Some(outer) => {
                    if outer < current {
                        current = outer;
                    } else {
                        return None;
                    }
                },
                None => {
                    return None;
                },
            }
        }
    }

    /// Binds `name` to `val` in `scope`, whether or not the scope bound the
    /// name before, and hands the value back.
    pub fn init(&mut self, scope: usize, name: String, val: Object) -> (value: Object)
        ensures
            final(self)@ == bind(old(self)@, scope as nat, name@, val@),
            value@ == val@,
    {
        if scope < self.scopes.len() {
            let copy = val.clone();
            let ghost entries = self.scopes@[scope as int].store@;
            match self.scopes[scope].find(&name) {
                Some(i) => {
                    proof {
                        lemma_bindings_update(entries, i as int, (name, copy));
                    }
                    self.scopes[scope].store[i] = (name, copy);
                },
                None => {
                    assert(entries.push((name, copy)).drop_last() =~= entries);
                    self.scopes[scope].store.push((name, copy));
                },
            }
            assert(final(self)@ =~= bind(old(self)@, scope as nat, name@, val@));
        }
        val
    }

    /// The number of scopes.
    pub fn len(&self) -> (n: usize)
        ensures
            n == self@.len(),
    {
        self.scopes.len()
    }
}

} // verus!
