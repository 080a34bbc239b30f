//! The symbolic data model: atoms and their text form.
//!
//! An atom is a symbol, a variable, a grounded value or a parenthesized
//! expression of atoms.  The library carries atoms as plain values; the
//! host interpreter's own atom type is converted at the boundary.

use vstd::prelude::*;

use crate::text::push_char;

verus! {

/// A symbolic expression.
#[derive(Debug)]
pub enum Atom {
    Symbol(String),
    Variable(String),
    Grounded(String),
    Expression(Vec<Atom>),
}

/// The mathematical model of an atom.
pub enum AtomView {
    Symbol(Seq<char>),
    Variable(Seq<char>),
    Grounded(Seq<char>),
    Expression(Seq<AtomView>),
}

/// The model of an atom.
pub open spec fn atom_view(a: &Atom) -> AtomView
    decreases a,
{
    match a {
        Atom::Symbol(s) => AtomView::Symbol(s@),
        Atom::Variable(s) => AtomView::Variable(s@),
        Atom::Grounded(s) => AtomView::Grounded(s@),
        Atom::Expression(children) => AtomView::Expression(atoms_view(children@)),
    }
}

/// The models of a run of atoms.
pub open spec fn atoms_view(s: Seq<Atom>) -> Seq<AtomView>
    decreases s,
{
    if s.len() == 0 {
        Seq::empty()
    } else {
        seq![atom_view(&s[0])] + atoms_view(s.drop_first())
    }
}

/// `atoms_view` is the element-wise model.
pub proof fn lemma_atoms_view(s: Seq<Atom>)
    ensures
        atoms_view(s).len() == s.len(),
        forall|i: int| 0 <= i < s.len() ==> atoms_view(s)[i] == atom_view(&s[i]),
    decreases s,
{
    if s.len() > 0 {
        lemma_atoms_view(s.drop_first());
        assert forall|i: int| 0 <= i < s.len() implies atoms_view(s)[i] == atom_view(&s[i]) by {
            if i > 0 {
                assert(s.drop_first()[i - 1] == s[i]);
            }
        }
    }
}

/// Appending one atom appends its model.
pub proof fn lemma_atoms_view_push(s: Seq<Atom>, a: Atom)
    ensures
        atoms_view(s.push(a)) == atoms_view(s).push(atom_view(&a)),
    decreases s,
{
    if s.len() == 0 {
        assert(s.push(a).drop_first() =~~= Seq::<Atom>::empty());
        assert(s.push(a)[0] == a);
        assert(atoms_view(Seq::<Atom>::empty()) =~~= Seq::<AtomView>::empty());
        assert(atoms_view(s.push(a)) =~~= atoms_view(s).push(atom_view(&a)));
    } else {
        lemma_atoms_view_push(s.drop_first(), a);
        assert(s.push(a)[0] == s[0]);
        assert(s.push(a).drop_first() =~~= s.drop_first().push(a));
        assert(atoms_view(s.push(a)) =~~= atoms_view(s).push(atom_view(&a)));
    }
}

/// The text of an atom: a variable with a `$` sigil, an expression in
/// parentheses with its children separated by single spaces, and a symbol
/// or grounded value by its name.
pub open spec fn atom_text(v: AtomView) -> Seq<char>
    decreases v,
{
    match v {
        AtomView::Symbol(s) => s,
        AtomView::Variable(s) => seq!['$'] + s,
        AtomView::Grounded(s) => s,
        AtomView::Expression(children) => seq!['('] + children_text(children) + seq![')'],
    }
}

/// The children of an expression joined by single spaces.
pub open spec fn children_text(children: Seq<AtomView>) -> Seq<char>
    decreases children,
{
    if children.len() == 0 {
        Seq::empty()
    } else if children.len() == 1 {
        atom_text(children[0])
    } else {
        atom_text(children[0]) + seq![' '] + children_text(children.drop_first())
    }
}

/// `children_text` of a longer prefix adds a separating space (after the
/// first child) and the next child's text.
pub proof fn lemma_children_text_take(cv: Seq<AtomView>, i: int)
    requires
        0 <= i < cv.len(),
    ensures
        i == 0 ==> children_text(cv.take(1)) == atom_text(cv[0]),
        i > 0 ==> children_text(cv.take(i + 1)) == children_text(cv.take(i)) + seq![' ']
            + atom_text(cv[i]),
    decreases i,
{
    if i == 0 {
        assert(cv.take(1).len() == 1);
        assert(cv.take(1)[0] == cv[0]);
    } else if i == 1 {
        reveal_with_fuel(children_text, 3);
        let t = cv.take(2);
        assert(t.len() == 2);
        assert(t[0] == cv[0] && t[1] == cv[1]);
        assert(t.drop_first() =~~= cv.subrange(1, 2));
        assert(cv.subrange(1, 2).len() == 1);
        assert(cv.subrange(1, 2)[0] == cv[1]);
        assert(children_text(t) == atom_text(cv[0]) + seq![' '] + atom_text(cv[1]));
        assert(cv.take(1).len() == 1);
        assert(cv.take(1)[0] == cv[0]);
        assert(children_text(cv.take(1)) == atom_text(cv[0]));
    } else {
        lemma_children_text_take(cv.drop_first(), i - 1);
        let t1 = cv.take(i + 1);
        let t0 = cv.take(i);
        assert(t1.len() == i + 1 && t0.len() == i);
        assert(t1[0] == cv[0] && t0[0] == cv[0]);
        assert(t1.drop_first() =~~= cv.drop_first().take(i));
        assert(t0.drop_first() =~~= cv.drop_first().take(i - 1));
        assert(cv.drop_first()[i - 1] == cv[i]);
        assert(children_text(t1) == atom_text(cv[0]) + seq![' '] + children_text(
            cv.drop_first().take(i),
        ));
        assert(children_text(t0) == atom_text(cv[0]) + seq![' '] + children_text(
            cv.drop_first().take(i - 1),
        ));
        assert((atom_text(cv[0]) + seq![' '] + (children_text(cv.drop_first().take(i - 1)) + seq![
            ' ',
        ] + atom_text(cv[i]))) =~~= (atom_text(cv[0]) + seq![' '] + children_text(
            cv.drop_first().take(i - 1),
        )) + seq![' '] + atom_text(cv[i]));
    }
}

impl Atom {
    /// A symbol atom.
    pub fn sym(name: String) -> (r: Atom)
        ensures
            atom_view(&r) == AtomView::Symbol(name@),
    {
        Atom::Symbol(name)
    }

    /// A variable atom.
    pub fn var(name: String) -> (r: Atom)
        ensures
            atom_view(&r) == AtomView::Variable(name@),
    {
        Atom::Variable(name)
    }

    /// An expression atom.
    pub fn expr(children: Vec<Atom>) -> (r: Atom)
        ensures
            atom_view(&r) == AtomView::Expression(atoms_view(children@)),
    {
        Atom::Expression(children)
    }

    /// The text of this atom.
    #[verifier::loop_isolation(false)]
    pub fn to_text(&self) -> (r: String)
        ensures
            r@ == atom_text(atom_view(self)),
        decreases self,
    {
        match self {
            Atom::Symbol(s) => s.clone(),
            Atom::Variable(s) => {
                let mut r = String::new();
                push_char(&mut r, '$');
                let r = r.concat(s.as_str());
                proof {
                    assert(r@ =~~= seq!['$'] + s@);
                }
                r
            },
            Atom::Grounded(s) => s.clone(),
            Atom::Expression(children) => {
                let ghost cv = atoms_view(children@);
                proof {
                    lemma_atoms_view(children@);
                }
                let mut r = String::new();
                push_char(&mut r, '(');
                let mut i: usize = 0;
                while i < children.len()
                    invariant
                        i <= children@.len(),
                        i == 0 ==> r@ == seq!['('],
                        i > 0 ==> r@ == seq!['('] + children_text(cv.take(i as int)),
                    decreases children@.len() - i,
                {
                    let mut r2 = r;
                    if i > 0 {
                        push_char(&mut r2, ' ');
                    }
                    proof {
                        assert(decreases_to!(self => children@[i as int]));
                    }
                    let t = children[i].to_text();
                    let r3 = r2.concat(t.as_str());
                    proof {
                        lemma_children_text_take(cv, i as int);
                        if i == 0 {
                            assert(r3@ =~~= seq!['('] + children_text(cv.take(1)));
                        } else {
                            assert(r3@ =~~= seq!['('] + children_text(cv.take(i + 1)));
                        }
                    }
                    r = r3;
                    i += 1;
                }
                push_char(&mut r, ')');
                proof {
                    assert(cv.take(i as int) =~~= cv);
                    if children@.len() == 0 {
                        assert(children_text(cv) =~~= Seq::<char>::empty());
                        assert(r@ =~~= seq!['('] + children_text(cv) + seq![')']);
                    } else {
                        assert(r@ =~~= seq!['('] + children_text(cv) + seq![')']);
                    }
                }
                r
            },
        }
    }

    /// A copy of this atom.
    #[verifier::loop_isolation(false)]
    pub fn clone_atom(&self) -> (r: Atom)
        ensures
            atom_view(&r) == atom_view(self),
        decreases self,
    {
        match self {
            Atom::Symbol(s) => Atom::Symbol(s.clone()),
            Atom::Variable(s) => Atom::Variable(s.clone()),
            Atom::Grounded(s) => Atom::Grounded(s.clone()),
            Atom::Expression(children) => {
                let ghost cv = atoms_view(children@);
                proof {
                    lemma_atoms_view(children@);
                }
                let mut out: Vec<Atom> = Vec::new();
                let mut i: usize = 0;
                proof {
                    assert(atoms_view(out@) =~~= Seq::<AtomView>::empty());
                }
                while i < children.len()
                    invariant
                        i <= children@.len(),
                        out@.len() == i,
                        atoms_view(out@) == cv.take(i as int),
                    decreases children@.len() - i,
                {
                    proof {
                        assert(decreases_to!(self => children@[i as int]));
                    }
                    let c = children[i].clone_atom();
                    let ghost out0 = out@;
                    let ghost cvv = atom_view(&c);
                    out.push(c);
                    proof {
                        lemma_atoms_view_push(out0, out@[i as int]);
                        assert(atoms_view(out@) =~~= cv.take(i + 1));
                    }
                    i += 1;
                }
                proof {
                    assert(cv.take(i as int) =~~= cv);
                }
                Atom::Expression(out)
            },
        }
    }
}

} // verus!
