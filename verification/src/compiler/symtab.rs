//! Symbol tables: a scope of names, linked to the scope that encloses it.
use super::text::same_text;
use vstd::prelude::*;

verus! {

/// A scope: its own bindings, and the enclosing scope, if any. A name is
/// looked up in the own bindings first, then in the enclosing scopes.
#[derive(Debug)]
pub struct SymTab<'a, T> {
    /// The bindings of this scope; the first binding of a name is the one that
    /// counts.
    pub locals: Vec<(String, T)>,
    parent: Option<&'a SymTab<'a, T>>,
}

/// The value bound to `name` by the first binding of `name` in `locals`.
pub open spec fn local_lookup<T>(locals: Seq<(String, T)>, name: Seq<char>) -> Option<T>
    decreases locals.len(),
{
    if locals.len() == 0 {
        None
    } else if locals[0].0@ == name {
        Some(locals[0].1)
    } else {
        local_lookup(locals.drop_first(), name)
    }
}

/// Index of the first binding of `name` in `locals`, or `locals.len()`.
pub open spec fn local_index<T>(locals: Seq<(String, T)>, name: Seq<char>) -> nat
    decreases locals.len(),
{
    if locals.len() == 0 {
        0
    } else if locals[0].0@ == name {
        0
    } else {
        1 + local_index(locals.drop_first(), name)
    }
}

pub proof fn lemma_local_index<T>(locals: Seq<(String, T)>, name: Seq<char>)
    ensures
        local_index(locals, name) <= locals.len(),
        local_index(locals, name) < locals.len() ==> locals[local_index(locals, name) as int].0@
            == name && local_lookup(locals, name) == Some(locals[local_index(locals, name) as int].1),
        local_index(locals, name) == locals.len() ==> local_lookup(locals, name).is_none(),
        forall|j: int| 0 <= j < local_index(locals, name) ==> #[trigger] locals[j].0@ != name,
    decreases locals.len(),
{
    if locals.len() > 0 && locals[0].0@ != name {
        let t = locals.drop_first();
        lemma_local_index(t, name);
        assert forall|j: int| 0 <= j < local_index(locals, name) implies #[trigger] locals[j].0@
            != name by {
            if j > 0 {
                assert(locals[j] == t[j - 1]);
            }
        }
    }
}

/// The first binding of `name` in `locals` is at index `k` (or there is none,
/// when `k == locals.len()`).
pub proof fn lemma_local_at<T>(locals: Seq<(String, T)>, name: Seq<char>, k: int)
    requires
        0 <= k <= locals.len(),
        k < locals.len() ==> locals[k].0@ == name,
        forall|j: int| 0 <= j < k ==> #[trigger] locals[j].0@ != name,
    ensures
        local_index(locals, name) == k,
        k < locals.len() ==> local_lookup(locals, name) == Some(locals[k].1),
        k == locals.len() ==> local_lookup(locals, name).is_none(),
    decreases locals.len(),
{
    if locals.len() > 0 && k > 0 {
        let t = locals.drop_first();
        assert forall|j: int| 0 <= j < k - 1 implies #[trigger] t[j].0@ != name by {
            assert(t[j] == locals[j + 1]);
        }
        assert(locals[0].0@ != name);
        lemma_local_at(t, name, k - 1);
    }
}

/// The names bound in `locals`.
pub open spec fn local_names<T>(locals: Seq<(String, T)>) -> Set<Seq<char>> {
    Set::new(|n: Seq<char>| local_lookup(locals, n).is_some())
}

/// A scope binds finitely many names, at most one per binding.
pub proof fn lemma_local_names<T>(locals: Seq<(String, T)>)
    ensures
        local_names(locals).finite(),
        local_names(locals).len() <= locals.len(),
    decreases locals.len(),
{
    if locals.len() == 0 {
        assert(local_names(locals) =~= Set::<Seq<char>>::empty());
    } else {
        let rest = locals.drop_first();
        lemma_local_names(rest);
        assert(local_names(locals) =~= local_names(rest).insert(locals[0].0@));
    }
}

/// What `name` is bound to in the scopes `chain` (outermost first): its binding
/// in the innermost scope that binds it.
pub open spec fn chain_lookup<T>(chain: Seq<Seq<(String, T)>>, name: Seq<char>) -> Option<T>
    decreases chain.len(),
{
    if chain.len() == 0 {
        None
    } else {
        match local_lookup(chain.last(), name) {
            Some(v) => Some(v),
            None => chain_lookup(chain.drop_last(), name),
        }
    }
}

/// No name is bound twice in `locals`.
pub open spec fn distinct_names<T>(locals: Seq<(String, T)>) -> bool {
    forall|i: int, j: int| 0 <= i < j < locals.len() ==> #[trigger] locals[i].0@ != #[trigger] locals[j].0@
}

impl<'a, T> SymTab<'a, T> {
    /// The bindings of this scope.
    pub closed spec fn bindings(&self) -> Seq<(String, T)> {
        self.locals@
    }

    /// The bindings of this scope, in order.
    pub fn local_bindings(&self) -> (r: &Vec<(String, T)>)
        ensures
            r@ == self.bindings(),
    {
        &self.locals
    }

    /// The enclosing scope.
    pub closed spec fn parent_scope(&self) -> Option<&'a SymTab<'a, T>> {
        self.parent
    }

    /// The bindings of the enclosing scopes and of this one, outermost first.
    pub open spec fn chain(&self) -> Seq<Seq<(String, T)>>
        decreases self,
    {
        match self.parent_scope() {
            Some(p) => p.chain().push(self.bindings()),
            None => seq![self.bindings()],
        }
    }

    /// Every name is bound at most once in this scope's own bindings (as it
    /// is in a map).
    pub open spec fn wf(&self) -> bool {
        distinct_names(self.bindings())
    }

    /// Looking a name up goes through the scopes from the innermost out.
    pub proof fn lemma_chain(&self)
        ensures
            self.chain().len() >= 1,
            self.chain().last() == self.bindings(),
            forall|n: Seq<char>| #[trigger] self.lookup(n) == chain_lookup(self.chain(), n),
        decreases self,
    {
        match self.parent_scope() {
            Some(p) => {
                p.lemma_chain();
                let c = self.chain();
                assert(c.drop_last() =~= p.chain());
                assert forall|n: Seq<char>| #[trigger] self.lookup(n) == chain_lookup(c, n) by {
                    assert(chain_lookup(c, n) == match local_lookup(c.last(), n) {
                        Some(v) => Some(v),
                        None => chain_lookup(c.drop_last(), n),
                    });
                    assert(p.lookup(n) == chain_lookup(p.chain(), n));
                }
            },
            None => {
                let c = self.chain();
                assert(c.drop_last() =~= Seq::<Seq<(String, T)>>::empty());
                assert forall|n: Seq<char>| #[trigger] self.lookup(n) == chain_lookup(c, n) by {
                    assert(chain_lookup(c, n) == match local_lookup(c.last(), n) {
                        Some(v) => Some(v),
                        None => chain_lookup(c.drop_last(), n),
                    });
                    assert(chain_lookup(c.drop_last(), n).is_none());
                }
            },
        }
    }

    /// The value `name` is bound to here or in an enclosing scope.
    pub open spec fn lookup(&self, name: Seq<char>) -> Option<T>
        decreases self,
    {
        match local_lookup(self.bindings(), name) {
            Some(v) => Some(v),
            None => match self.parent_scope() {
                Some(p) => p.lookup(name),
                None => None,
            },
        }
    }

    /// An empty outermost scope.
    pub fn new() -> (s: Self)
        ensures
            s.bindings() == Seq::<(String, T)>::empty(),
            s.parent_scope().is_none(),
            s.wf(),
            forall|n: Seq<char>| #[trigger] s.lookup(n).is_none(),
    {
        SymTab { locals: Vec::new(), parent: None }
    }

    /// An empty scope inside `parent`.
    pub fn new_with_parent(parent: &'a SymTab<'a, T>) -> (s: Self)
        ensures
            s.bindings() == Seq::<(String, T)>::empty(),
            s.parent_scope() == Some(parent),
            s.wf(),
            forall|n: Seq<char>| #[trigger] s.lookup(n) == parent.lookup(n),
    {
        let s = SymTab { locals: Vec::new(), parent: Some(parent) };
        assert forall|n: Seq<char>| #[trigger] s.lookup(n) == parent.lookup(n) by {
            assert(local_lookup(s.locals@, n).is_none());
        }
        s
    }

    /// Binds `name` to `var_type` in this scope, replacing its binding here if
    /// there is one.
    pub fn insert(&mut self, name: &str, var_type: T)
        ensures
            final(self).parent_scope() == old(self).parent_scope(),
            old(self).wf() ==> final(self).wf(),
            ({
                let (before, after) = (old(self).bindings(), final(self).bindings());
                let k = local_index(before, name@);
                if k < before.len() {
                    after == before.update(k as int, (before[k as int].0, var_type))
                } else {
                    &&& after.len() == before.len() + 1
                    &&& after.drop_last() == before
                    &&& after.last().0@ == name@
                    &&& after.last().1 == var_type
                }
            }),
            forall|n: Seq<char>| #[trigger] local_lookup(final(self).bindings(), n) == if n == name@ {
                Some(var_type)
            } else {
                local_lookup(old(self).bindings(), n)
            },
            forall|n: Seq<char>| #[trigger] final(self).lookup(n) == if n == name@ {
                Some(var_type)
            } else {
                old(self).lookup(n)
            },
    {
        let ghost old_locals = self.locals@;
        let k = self.index_of(name);
        proof {
            lemma_local_index(old_locals, name@);
        }
        if k < self.locals.len() {
            let key = self.locals[k].0.clone();
            self.locals.set(k, (key, var_type));
            proof {
                let l = self.locals@;
                assert forall|n: Seq<char>| #[trigger] local_lookup(l, n) == if n == name@ {
                    Some(var_type)
                } else {
                    local_lookup(old_locals, n)
                } by {
                    lemma_local_index(old_locals, n);
                    let j = local_index(old_locals, n) as int;
                    assert forall|i: int| 0 <= i < j implies #[trigger] l[i].0@ != n by {
                        assert(l[i].0@ == old_locals[i].0@);
                    }
                    if j < l.len() {
                        assert(l[j].0@ == old_locals[j].0@);
                    }
                    lemma_local_at(l, n, j);
                }
            }
        } else {
            self.locals.push((name.to_owned(), var_type));
            proof {
                let l = self.locals@;
                assert forall|n: Seq<char>| #[trigger] local_lookup(l, n) == if n == name@ {
                    Some(var_type)
                } else {
                    local_lookup(old_locals, n)
                } by {
                    lemma_local_index(old_locals, n);
                    let j = local_index(old_locals, n) as int;
                    assert forall|i: int| 0 <= i < j implies #[trigger] l[i].0@ != n by {
                        assert(l[i] == old_locals[i]);
                    }
                    if j < old_locals.len() {
                        assert(l[j] == old_locals[j]);
                        lemma_local_at(l, n, j);
                    } else if n == name@ {
                        lemma_local_at(l, n, j);
                    } else {
                        assert forall|i: int| 0 <= i < j + 1 implies #[trigger] l[i].0@ != n by {
                            if i < j {
                                assert(l[i] == old_locals[i]);
                            }
                        }
                        lemma_local_at(l, n, j + 1);
                    }
                }
            }
        }
        assert forall|n: Seq<char>| #[trigger] self.lookup(n) == if n == name@ {
            Some(var_type)
        } else {
            old(self).lookup(n)
        } by {
            assert(local_lookup(self.locals@, n) == if n == name@ {
                Some(var_type)
            } else {
                local_lookup(old_locals, n)
            });
        }
    }

    fn index_of(&self, name: &str) -> (k: usize)
        ensures
            k == local_index(self.bindings(), name@),
    {
        let mut k: usize = 0;
        while k < self.locals.len() && !same_text(self.locals[k].0.as_str(), name)
            invariant
                k <= self.locals@.len(),
                forall|j: int| 0 <= j < k ==> #[trigger] self.locals@[j].0@ != name@,
            decreases self.locals@.len() - k,
        {
            k = k + 1;
        }
        proof {
            lemma_local_at(self.locals@, name@, k as int);
        }
        k
    }

    /// The value `name` is bound to here or in an enclosing scope.
    pub fn get(&self, name: &str) -> (r: Option<&T>)
        ensures
            match r {
                Some(v) => self.lookup(name@) == Some(*v),
                None => self.lookup(name@).is_none(),
            },
        decreases self,
    {
        let k = self.index_of(name);
        proof {
            lemma_local_index(self.locals@, name@);
        }
        if k < self.locals.len() {
            return Some(&self.locals[k].1);
        }
        match &self.parent {
            Some(p) => p.get(name),
            None => None,
        }
    }
}

} // verus!
