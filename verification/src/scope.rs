//! Lexical scopes.  A scope is a node in an arena: its bindings, and
//! the index of its parent in the interpreter's scope vector.  Sharing
//! a scope between closures is sharing its index; the arena owns every
//! node, so closures observe later mutations of captured variables.

use vstd::prelude::*;
use crate::object::{Object, ObjectV};

verus! {

/// One scope: an optional parent index and the bindings made here, in
/// order.  A later binding for a name shadows an earlier one, so the
/// abstract content is a mapping even though the list keeps history.
#[derive(Debug)]
pub struct Scope {
    pub parent: Option<usize>,
    pub entries: Vec<(String, Object)>,
}

/// The mathematical view of one scope.
#[verifier::ext_equal]
pub struct ScopeV {
    pub parent: Option<usize>,
    pub entries: Seq<(Seq<char>, ObjectV)>,
}

/// The view of a binding list: each name and value viewed in place.
pub open spec fn entries_dv(s: Seq<(String, Object)>) -> Seq<(Seq<char>, ObjectV)>
    decreases s,
{
    if s.len() == 0 {
        Seq::empty()
    } else {
        entries_dv(s.drop_last()).push((s.last().0@, s.last().1.deep_view()))
    }
}

/// `entries_dv` is the element-wise view.
pub broadcast proof fn lemma_entries_dv(s: Seq<(String, Object)>)
    ensures
        (#[trigger] entries_dv(s)).len() == s.len(),
        forall|i: int|
            0 <= i < s.len() ==> entries_dv(s)[i] == (s[i].0@, s[i].1.deep_view()),
    decreases s,
{
    if s.len() > 0 {
        lemma_entries_dv(s.drop_last());
        assert(entries_dv(s) == entries_dv(s.drop_last()).push(
            (s.last().0@, s.last().1.deep_view()),
        ));
        assert forall|i: int|
            0 <= i < s.len() implies entries_dv(s)[i] == (s[i].0@, s[i].1.deep_view()) by {
            if i < s.len() - 1 {
                assert(entries_dv(s)[i] == entries_dv(s.drop_last())[i]);
                assert(s.drop_last()[i] == s[i]);
            } else {
                assert(entries_dv(s)[i] == (s.last().0@, s.last().1.deep_view()));
            }
        }
    }
}

/// Appending a binding appends its view.
pub broadcast proof fn lemma_entries_dv_push(s: Seq<(String, Object)>, e: (String, Object))
    ensures
        #[trigger] entries_dv(s.push(e)) == entries_dv(s).push((e.0@, e.1.deep_view())),
{
    assert(s.push(e).drop_last() =~= s);
    assert(s.push(e).last() == e);
}

impl DeepView for Scope {
    type V = ScopeV;

    open spec fn deep_view(&self) -> ScopeV {
        ScopeV { parent: self.parent, entries: entries_dv(self.entries@) }
    }
}

/// The value bound to a name in one scope: the latest binding wins.
pub open spec fn binding_of(entries: Seq<(Seq<char>, ObjectV)>, name: Seq<char>) -> Option<
    ObjectV,
>
    decreases entries,
{
    if entries.len() == 0 {
        None
    } else if entries.last().0 == name {
        Some(entries.last().1)
    } else {
        binding_of(entries.drop_last(), name)
    }
}

impl Scope {
    /// A fresh scope with no parent.
    pub fn new() -> (s: Scope)
        ensures
            s.deep_view() == (ScopeV {
                parent: None::<usize>,
                entries: Seq::<(Seq<char>, ObjectV)>::empty(),
            }),
    {
        let s = Scope { parent: None, entries: Vec::new() };
        proof {
            assert(entries_dv(s.entries@) =~= Seq::<(Seq<char>, ObjectV)>::empty());
        }
        s
    }

    /// A fresh scope chained under the given parent index.
    pub fn from(parent: usize) -> (s: Scope)
        ensures
            s.deep_view() == (ScopeV {
                parent: Some(parent),
                entries: Seq::<(Seq<char>, ObjectV)>::empty(),
            }),
    {
        let s = Scope { parent: Some(parent), entries: Vec::new() };
        proof {
            assert(entries_dv(s.entries@) =~= Seq::<(Seq<char>, ObjectV)>::empty());
        }
        s
    }

    /// Bind a name in this scope, declaring or shadowing it here;
    /// parents are never touched.
    pub fn define(&mut self, name: String, value: Object)
        ensures
            final(self).deep_view() == (ScopeV {
                parent: old(self).deep_view().parent,
                entries: old(self).deep_view().entries.push((name@, value.deep_view())),
            }),
    {
        proof {
            lemma_entries_dv_push(self.entries@, (name, value));
        }
        self.entries.push((name, value));
    }

    /// The value bound to a name here, if any: the latest binding wins.
    pub fn lookup(&self, name: &String) -> (r: Option<Object>)
        ensures
            match r {
                Some(v) => binding_of(self.deep_view().entries, name@) == Some(v.deep_view()),
                None => binding_of(self.deep_view().entries, name@) is None,
            },
    {
        proof {
            lemma_entries_dv(self.entries@);
        }
        let ghost ev = entries_dv(self.entries@);
        let mut i: usize = self.entries.len();
        proof {
            assert(ev.take(self.entries@.len() as int) =~= ev);
        }
        while i > 0
            invariant
                i <= self.entries@.len(),
                ev == entries_dv(self.entries@),
                ev.len() == self.entries@.len(),
                forall|j: int|
                    0 <= j < self.entries@.len() ==> ev[j] == (
                        self.entries@[j].0@,
                        self.entries@[j].1.deep_view(),
                    ),
                binding_of(ev, name@) == binding_of(ev.take(i as int), name@),
            decreases i,
        {
            i = i - 1;
            if self.entries[i].0 == *name {
                proof {
                    assert(ev.take(i as int + 1).last() == ev[i as int]);
                }
                return Some(self.entries[i].1.clone());
            }
            proof {
                assert(ev.take(i as int + 1).drop_last() =~= ev.take(i as int));
                assert(ev.take(i as int + 1).last() == ev[i as int]);
            }
        }
        proof {
            assert(ev.take(0) =~= Seq::<(Seq<char>, ObjectV)>::empty());
        }
        None
    }
}

} // verus!
