//! Variable bindings: mappings from variable names to atoms, and ordered
//! sets of such mappings, one per query answer.

use vstd::prelude::*;

use crate::assoc::{assoc_insert, key_at, lemma_key_at, lemma_key_at_skip, lookup};
use crate::atoms::{atom_view, Atom, AtomView};
use crate::text::str_eq;

verus! {

/// A mapping from variable name to atom.
#[derive(Debug)]
pub struct Bindings {
    pairs: Vec<(String, Atom)>,
}

impl View for Bindings {
    type V = Seq<(Seq<char>, AtomView)>;

    /// The bindings in insertion order.
    closed spec fn view(&self) -> Seq<(Seq<char>, AtomView)> {
        self.pairs@.map_values(|e: (String, Atom)| (e.0@, atom_view(&e.1)))
    }
}

impl Bindings {
    /// No variable is bound twice.
    pub open spec fn wf(&self) -> bool {
        forall|i: int, j: int| 0 <= i < j < self@.len() ==> (#[trigger] self@[i]).0 != (
        #[trigger] self@[j]).0
    }

    /// An empty set of bindings.
    pub fn new() -> (r: Bindings)
        ensures
            r@ == Seq::<(Seq<char>, AtomView)>::empty(),
            r.wf(),
    {
        let r = Bindings { pairs: Vec::new() };
        proof {
            assert(r@ =~~= Seq::<(Seq<char>, AtomView)>::empty());
        }
        r
    }

    /// The number of bound variables.
    pub fn len(&self) -> (r: usize)
        ensures
            r == self@.len(),
    {
        proof {
            assert(self@.len() == self.pairs@.len());
        }
        self.pairs.len()
    }

    /// The index of the binding for `var`, if any.
    fn find_index(&self, var: &str) -> (r: Option<usize>)
        ensures
            r matches Some(i) ==> i == key_at(self@, var@),
            r is None ==> key_at(self@, var@) == -1,
    {
        let mut i: usize = 0;
        while i < self.pairs.len()
            invariant
                i <= self@.len(),
                self@.len() == self.pairs@.len(),
                forall|j: int| 0 <= j < i ==> (#[trigger] self@[j]).0 != var@,
            decreases self@.len() - i,
        {
            if str_eq(self.pairs[i].0.as_str(), var) {
                proof {
                    lemma_key_at_skip(self@, var@, i as int);
                    assert(self@.skip(i as int)[0] == self@[i as int]);
                }
                return Some(i);
            }
            i += 1;
        }
        proof {
            lemma_key_at_skip(self@, var@, i as int);
            assert(self@.skip(i as int).len() == 0);
        }
        None
    }

    /// Binds `var` to `value`, replacing in place any binding already there
    /// and appending otherwise.
    pub fn add_var_binding(&mut self, var: String, value: Atom)
        ensures
            final(self)@ == assoc_insert(old(self)@, var@, atom_view(&value)),
            old(self).wf() ==> final(self).wf(),
    {
        proof {
            lemma_key_at(self@, var@);
        }
        let ghost pre = self@;
        let ghost vv = atom_view(&value);
        match self.find_index(var.as_str()) {
            Some(i) => {
                self.pairs.remove(i);
                self.pairs.insert(i, (var, value));
                proof {
                    assert(self@ =~~= pre.update(key_at(pre, var@), (var@, vv)));
                    if old(self).wf() {
                        let i0 = key_at(pre, var@);
                        assert forall|a: int, b: int|
                            0 <= a < b < self@.len() implies (#[trigger] self@[a]).0 != (
                        #[trigger] self@[b]).0 by {
                            if a != i0 && b != i0 {
                                assert(self@[a] == pre[a] && self@[b] == pre[b]);
                            } else if a == i0 {
                                assert(pre[b].0 != pre[i0].0);
                            } else {
                                assert(pre[a].0 != pre[i0].0);
                            }
                        }
                    }
                }
            },
            None => {
                self.pairs.push((var, value));
                proof {
                    assert(self@ =~~= pre.push((var@, vv)));
                    if old(self).wf() {
                        lemma_key_at(pre, var@);
                        assert forall|a: int, b: int|
                            0 <= a < b < self@.len() implies (#[trigger] self@[a]).0 != (
                        #[trigger] self@[b]).0 by {
                            if b < pre.len() {
                                assert(self@[a] == pre[a] && self@[b] == pre[b]);
                            } else {
                                assert(self@[a] == pre[a]);
                            }
                        }
                    }
                }
            },
        }
    }

    /// The atom bound to `var`, if any.
    pub fn get(&self, var: &str) -> (r: Option<&Atom>)
        ensures
            r matches Some(a) ==> lookup(self@, var@) == Some(atom_view(a)),
            r is None ==> lookup(self@, var@) is None,
    {
        proof {
            lemma_key_at(self@, var@);
        }
        match self.find_index(var) {
            Some(i) => Some(&self.pairs[i].1),
            None => None,
        }
    }

    /// The name of the binding at `i`.
    pub fn name_at(&self, i: usize) -> (r: &String)
        requires
            i < self@.len(),
        ensures
            r@ == self@[i as int].0,
    {
        &self.pairs[i].0
    }

    /// The atom of the binding at `i`.
    pub fn atom_at(&self, i: usize) -> (r: &Atom)
        requires
            i < self@.len(),
        ensures
            atom_view(r) == self@[i as int].1,
    {
        &self.pairs[i].1
    }

    /// The bindings narrowed to the given variable names, keeping order.
    pub fn narrow_vars(&self, vars: &Vec<String>) -> (r: Bindings)
        ensures
            r@ == narrowed(self@, vars.deep_view()),
    {
        let ghost vs = vars.deep_view();
        let mut out: Vec<(String, Atom)> = Vec::new();
        let mut i: usize = 0;
        proof {
            assert(out@.map_values(|e: (String, Atom)| (e.0@, atom_view(&e.1))) =~~= Seq::<
                (Seq<char>, AtomView),
            >::empty());
            assert(self@.skip(0) =~~= self@);
        }
        while i < self.pairs.len()
            invariant
                i <= self@.len(),
                self@.len() == self.pairs@.len(),
                vs == vars.deep_view(),
                narrowed(self@, vs) == out@.map_values(|e: (String, Atom)| (e.0@, atom_view(&e.1)))
                    + narrowed(self@.skip(i as int), vs),
            decreases self@.len() - i,
        {
            let ghost f = |e: (String, Atom)| (e.0@, atom_view(&e.1));
            let ghost before = out@.map_values(f);
            proof {
                assert(self@[i as int] == f(self.pairs@[i as int]));
                assert(self@.skip(i as int)[0] == self@[i as int]);
                assert(self@.skip(i as int).drop_first() =~~= self@.skip(i + 1));
            }
            if crate::helpers::contains_name(vars, self.pairs[i].0.as_str()) {
                let name = self.pairs[i].0.clone();
                let value = self.pairs[i].1.clone_atom();
                out.push((name, value));
                proof {
                    assert(out@.map_values(f) =~~= before.push(self@[i as int]));
                    assert(narrowed(self@.skip(i as int), vs) =~~= seq![self@[i as int]]
                        + narrowed(self@.skip(i + 1), vs));
                    assert(before + (seq![self@[i as int]] + narrowed(self@.skip(i + 1), vs))
                        =~~= before.push(self@[i as int]) + narrowed(self@.skip(i + 1), vs));
                }
            } else {
                proof {
                    assert(narrowed(self@.skip(i as int), vs) =~~= Seq::<
                        (Seq<char>, AtomView),
                    >::empty() + narrowed(self@.skip(i + 1), vs));
                    assert(Seq::<(Seq<char>, AtomView)>::empty() + narrowed(
                        self@.skip(i + 1),
                        vs,
                    ) =~~= narrowed(self@.skip(i + 1), vs));
                }
            }
            i += 1;
        }
        proof {
            assert(self@.skip(i as int).len() == 0);
            assert(narrowed(self@.skip(i as int), vs) =~~= Seq::<(Seq<char>, AtomView)>::empty());
            let f = |e: (String, Atom)| (e.0@, atom_view(&e.1));
            assert(out@.map_values(f) + Seq::<(Seq<char>, AtomView)>::empty() =~~= out@.map_values(
                f,
            ));
        }
        let r = Bindings { pairs: out };
        r
    }
}

/// The entries of `s` whose name is among `vars`, in order.
pub open spec fn narrowed(s: Seq<(Seq<char>, AtomView)>, vars: Seq<Seq<char>>) -> Seq<
    (Seq<char>, AtomView),
>
    decreases s.len(),
{
    if s.len() == 0 {
        Seq::empty()
    } else {
        (if vars.contains(s[0].0) {
            seq![s[0]]
        } else {
            Seq::empty()
        }) + narrowed(s.drop_first(), vars)
    }
}

/// An ordered collection of bindings, one per query answer.
#[derive(Debug)]
pub struct BindingsSet {
    sets: Vec<Bindings>,
}

impl View for BindingsSet {
    type V = Seq<Seq<(Seq<char>, AtomView)>>;

    closed spec fn view(&self) -> Seq<Seq<(Seq<char>, AtomView)>> {
        self.sets@.map_values(|b: Bindings| b@)
    }
}

impl BindingsSet {
    /// An empty collection.
    pub fn empty() -> (r: BindingsSet)
        ensures
            r@ == Seq::<Seq<(Seq<char>, AtomView)>>::empty(),
    {
        let r = BindingsSet { sets: Vec::new() };
        proof {
            assert(r@ =~~= Seq::<Seq<(Seq<char>, AtomView)>>::empty());
        }
        r
    }

    /// The number of bindings held.
    pub fn len(&self) -> (r: usize)
        ensures
            r == self@.len(),
    {
        proof {
            assert(self@.len() == self.sets@.len());
        }
        self.sets.len()
    }

    /// Appends one bindings record.
    pub fn push(&mut self, b: Bindings)
        ensures
            final(self)@ == old(self)@.push(b@),
    {
        let ghost bv = b@;
        let ghost pre = self@;
        self.sets.push(b);
        proof {
            assert(self@ =~~= pre.push(bv));
        }
    }

    /// The bindings at `i`.
    pub fn get(&self, i: usize) -> (r: &Bindings)
        requires
            i < self@.len(),
        ensures
            r@ == self@[i as int],
    {
        &self.sets[i]
    }
}

} // verus!
