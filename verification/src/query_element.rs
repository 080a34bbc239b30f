//! Query elements: the stimulus and determiner entries of a context
//! command, each a numeric handle or a variable name.

use vstd::prelude::*;

use crate::atoms::{atom_view, Atom, AtomView};
use crate::text::{
    chars_of, dec_str, is_u64_text, parse_u64, push_char, u64_text_val, u64_to_string,
};

verus! {

/// A handle or a variable.
#[derive(Debug)]
pub enum QueryElement {
    Handle(u32),
    Variable(String),
}

/// The mathematical model of a query element.
pub enum ElementView {
    Handle(int),
    Variable(Seq<char>),
}

/// The model of a query element.
pub open spec fn element_view(e: &QueryElement) -> ElementView {
    match e {
        QueryElement::Handle(h) => ElementView::Handle(*h as int),
        QueryElement::Variable(v) => ElementView::Variable(v@),
    }
}

/// The wire text of a query element: `_` before a handle, `$` before a
/// variable name.
pub open spec fn element_text(v: ElementView) -> Seq<char> {
    match v {
        ElementView::Handle(h) => seq!['_'] + dec_str(h as nat),
        ElementView::Variable(n) => seq!['$'] + n,
    }
}

/// The query element an atom stands for: a symbol or grounded value whose
/// text is a number up to `u32::MAX` names a handle; a variable names
/// itself; an expression names nothing.
pub open spec fn element_of_atom(v: AtomView) -> Option<ElementView> {
    match v {
        AtomView::Symbol(s) => if is_u64_text(s) && u64_text_val(s) <= u32::MAX {
            Some(ElementView::Handle(u64_text_val(s)))
        } else {
            None
        },
        AtomView::Variable(n) => Some(ElementView::Variable(n)),
        AtomView::Grounded(g) => if is_u64_text(g) && u64_text_val(g) <= u32::MAX {
            Some(ElementView::Handle(u64_text_val(g)))
        } else {
            None
        },
        AtomView::Expression(_) => None,
    }
}

impl QueryElement {
    /// A handle element.
    pub fn new_handle(element: u32) -> (r: QueryElement)
        ensures
            element_view(&r) == ElementView::Handle(element as int),
    {
        QueryElement::Handle(element)
    }

    /// A variable element.
    pub fn new_variable(element: &str) -> (r: QueryElement)
        ensures
            element_view(&r) == ElementView::Variable(element@),
    {
        QueryElement::Variable(String::from_str(element))
    }

    /// The wire text of this element.
    pub fn to_text(&self) -> (r: String)
        ensures
            r@ == element_text(element_view(self)),
    {
        match self {
            QueryElement::Handle(h) => {
                let mut s = String::new();
                push_char(&mut s, '_');
                let r = s.concat(u64_to_string(*h as u64).as_str());
                proof {
                    assert(r@ =~~= seq!['_'] + dec_str(*h as nat));
                }
                r
            },
            QueryElement::Variable(v) => {
                let mut s = String::new();
                push_char(&mut s, '$');
                let r = s.concat(v.as_str());
                proof {
                    assert(r@ =~~= seq!['$'] + v@);
                }
                r
            },
        }
    }

    /// A copy of this element.
    pub fn clone_element(&self) -> (r: QueryElement)
        ensures
            element_view(&r) == element_view(self),
    {
        match self {
            QueryElement::Handle(h) => QueryElement::Handle(*h),
            QueryElement::Variable(v) => QueryElement::Variable(v.clone()),
        }
    }

    /// The element an atom stands for; an error when the atom is an
    /// expression or a non-numeric symbol or grounded value.
    pub fn try_from_atom(atom: &Atom) -> (r: Result<QueryElement, String>)
        ensures
            r is Ok <==> element_of_atom(atom_view(atom)) is Some,
            r matches Ok(e) ==> element_of_atom(atom_view(atom)) == Some(element_view(&e)),
    {
        match atom {
            Atom::Symbol(s) => {
                match parse_u64(&chars_of(s.as_str())) {
                    Some(v) => if v <= u32::MAX as u64 {
                        Ok(QueryElement::Handle(v as u32))
                    } else {
                        Err(String::from_str("Failed to convert Atom to QueryElement"))
                    },
                    None => Err(String::from_str("Failed to convert Atom to QueryElement")),
                }
            },
            Atom::Variable(v) => Ok(QueryElement::Variable(v.clone())),
            Atom::Grounded(g) => {
                match parse_u64(&chars_of(g.as_str())) {
                    Some(v) => if v <= u32::MAX as u64 {
                        Ok(QueryElement::Handle(v as u32))
                    } else {
                        Err(String::from_str("Failed to convert Atom to QueryElement"))
                    },
                    None => Err(String::from_str("Failed to convert Atom to QueryElement")),
                }
            },
            Atom::Expression(_) => Err(String::from_str("Failed to convert Atom to QueryElement")),
        }
    }
}

} // verus!
