//! Context-broker queries: hashing of context names, the context command's
//! argument encoder, and its parameter parser.

use vstd::prelude::*;

use crate::atoms::{atom_text, atom_view, atoms_view, Atom, AtomView};
use crate::bus::CONTEXT_CMD;
use crate::properties::{wire_view, PropView};
use crate::proxy::{fresh_base, BaseQueryProxy};
use crate::query_element::{element_of_atom, element_text, element_view, ElementView, QueryElement};
use crate::text::{dec_str, u64_to_string};
use crate::QueryParams;

verus! {

/// The lowercase hexadecimal MD5 digest of a character sequence; what
/// `md5::compute` followed by lower-hex formatting returns.
pub uninterp spec fn md5_hex(s: Seq<char>) -> Seq<char>;

/// Relies on `md5::compute`: the digest depends on the input alone, and its
/// sixteen bytes format as thirty-two lower-hex characters.
#[verifier::external_body]
fn md5_hex_of(s: &str) -> (r: String)
    ensures
        r@ == md5_hex(s@),
        r@.len() == 32,
{
    let digest = md5::compute(s.as_bytes());
    format!("{:x}", digest)
}

/// The key of a context: the MD5 digest of its name, in lower-hex text.
pub fn hash_context(context: &str) -> (r: String)
    ensures
        r@ == md5_hex(context@),
        r@.len() == 32,
{
    md5_hex_of(context)
}

/// The element views of a run of query elements.
pub open spec fn elements_view(s: Seq<QueryElement>) -> Seq<ElementView> {
    s.map_values(|e: QueryElement| element_view(&e))
}

/// The element views of a run of query-element pairs.
pub open spec fn det_view(s: Seq<(QueryElement, QueryElement)>) -> Seq<(ElementView, ElementView)> {
    s.map_values(|e: (QueryElement, QueryElement)| (element_view(&e.0), element_view(&e.1)))
}

/// The wire texts of a run of elements.
pub open spec fn element_texts(s: Seq<ElementView>) -> Seq<Seq<char>> {
    s.map_values(|v: ElementView| element_text(v))
}

/// The wire texts of a run of element pairs: source then target for each.
pub open spec fn det_texts(s: Seq<(ElementView, ElementView)>) -> Seq<Seq<char>>
    decreases s.len(),
{
    if s.len() == 0 {
        Seq::empty()
    } else {
        seq![element_text(s[0].0), element_text(s[0].1)] + det_texts(s.drop_first())
    }
}

pub proof fn lemma_det_texts_push(s: Seq<(ElementView, ElementView)>, e: (ElementView, ElementView))
    ensures
        det_texts(s.push(e)) == det_texts(s) + seq![element_text(e.0), element_text(e.1)],
    decreases s.len(),
{
    if s.len() == 0 {
        assert(s.push(e)[0] == e);
        assert(s.push(e).drop_first() =~~= Seq::<(ElementView, ElementView)>::empty());
        assert(det_texts(Seq::<(ElementView, ElementView)>::empty()) =~~= Seq::<Seq<char>>::empty());
        assert(det_texts(s.push(e)) =~~= det_texts(s) + seq![element_text(e.0), element_text(e.1)]);
    } else {
        lemma_det_texts_push(s.drop_first(), e);
        assert(s.push(e)[0] == s[0]);
        assert(s.push(e).drop_first() =~~= s.drop_first().push(e));
        assert(det_texts(s.push(e)) =~~= det_texts(s) + seq![element_text(e.0), element_text(e.1)]);
    }
}

/// The parameters of one context command: the query, the determiner schema
/// (source/target pairs) and the stimulus schema.
pub struct ContextBrokerParams {
    pub query_atom: Atom,
    pub determiner_schema: Vec<(QueryElement, QueryElement)>,
    pub stimulus_schema: Vec<QueryElement>,
}

/// The wire arguments of a context command: the serialized properties, the
/// context key, one query token, the counted stimulus schema, the counted
/// determiner schema, and the context key and name as the tail.
pub open spec fn context_args(
    params: QueryParams,
    name: Seq<char>,
    query: AtomView,
    det: Seq<(ElementView, ElementView)>,
    stim: Seq<ElementView>,
) -> Seq<Seq<char>> {
    wire_view(params.properties@) + seq![params.context_key@, dec_str(1), atom_text(query)]
        + seq![dec_str(stim.len())] + element_texts(stim) + seq![dec_str(det.len())] + det_texts(
        det,
    ) + seq![params.context_key@, name]
}

/// A proxy for one context command, carrying the context's name and key.
pub struct ContextBrokerProxy {
    pub base: BaseQueryProxy,
    pub name: String,
    pub key: String,
    pub determiner_schema: Vec<(QueryElement, QueryElement)>,
    pub stimulus_schema: Vec<QueryElement>,
}

impl ContextBrokerProxy {
    /// A proxy whose arguments encode `params` and the schemas for the
    /// context command.  An error reports a missing or non-boolean count
    /// flag, or a missing or non-string context property.
    #[verifier::loop_isolation(false)]
    #[verifier::rlimit(30)]
    pub fn new(params: &QueryParams, context_broker_params: &ContextBrokerParams) -> (r: Result<
        ContextBrokerProxy,
        String,
    >)
        requires
            3 * params.properties@.len() <= u64::MAX,
        ensures
            r is Ok <==> ((crate::assoc::lookup(params.properties@, crate::properties::COUNT_FLAG@)
                matches Some(PropView::Bool(_))) && (crate::assoc::lookup(
                params.properties@,
                crate::properties::CONTEXT@,
            ) matches Some(PropView::Text(_)))),
            r matches Ok(p) ==> {
                &&& fresh_base(p.base, CONTEXT_CMD@, *params)
                &&& p.base.args.deep_view() == context_args(
                    *params,
                    p.name@,
                    atom_view(&context_broker_params.query_atom),
                    det_view(context_broker_params.determiner_schema@),
                    elements_view(context_broker_params.stimulus_schema@),
                )
                &&& crate::assoc::lookup(params.properties@, crate::properties::CONTEXT@) == Some(
                    PropView::Text(p.name@),
                )
                &&& p.key@ == params.context_key@
                &&& det_view(p.determiner_schema@) == det_view(
                    context_broker_params.determiner_schema@,
                )
                &&& elements_view(p.stimulus_schema@) == elements_view(
                    context_broker_params.stimulus_schema@,
                )
            },
    {
        let mut base = match BaseQueryProxy::new(String::from_str(CONTEXT_CMD), params) {
            Ok(b) => b,
            Err(e) => {
                return Err(e);
            },
        };
        let name = match params.properties.get_text(crate::properties::CONTEXT) {
            Ok(s) => s,
            Err(e) => {
                return Err(e);
            },
        };
        let key = base.context.clone();
        let mut args = params.properties.to_vec();
        crate::helpers::push_string(&mut args, base.context.clone());
        crate::helpers::push_string(&mut args, u64_to_string(1));
        crate::helpers::push_string(&mut args, context_broker_params.query_atom.to_text());

        let ghost stim = elements_view(context_broker_params.stimulus_schema@);
        let ghost det = det_view(context_broker_params.determiner_schema@);
        crate::helpers::push_string(
            &mut args,
            u64_to_string(context_broker_params.stimulus_schema.len() as u64),
        );
        let ghost h1 = args.deep_view();
        let mut i: usize = 0;
        proof {
            assert(args.deep_view() =~~= h1 + element_texts(stim).take(0));
        }
        while i < context_broker_params.stimulus_schema.len()
            invariant
                i <= context_broker_params.stimulus_schema@.len(),
                stim.len() == context_broker_params.stimulus_schema@.len(),
                args.deep_view() == h1 + element_texts(stim).take(i as int),
            decreases context_broker_params.stimulus_schema@.len() - i,
        {
            let ghost before = args.deep_view();
            let t = context_broker_params.stimulus_schema[i].to_text();
            let ghost txt = t@;
            proof {
                assert(stim[i as int] == element_view(
                    &context_broker_params.stimulus_schema@[i as int],
                ));
                assert(element_texts(stim)[i as int] == element_text(stim[i as int]));
            }
            crate::helpers::push_string(&mut args, t);
            proof {
                assert(args.deep_view() == before.push(txt));
                assert(args.deep_view() =~~= h1 + element_texts(stim).take(i + 1));
            }
            i += 1;
        }
        proof {
            assert(element_texts(stim).take(i as int) =~~= element_texts(stim));
        }

        crate::helpers::push_string(
            &mut args,
            u64_to_string(context_broker_params.determiner_schema.len() as u64),
        );
        let ghost h2 = args.deep_view();
        let mut j: usize = 0;
        proof {
            assert(det.take(0) =~~= Seq::<(ElementView, ElementView)>::empty());
            assert(det_texts(det.take(0)) =~~= Seq::<Seq<char>>::empty());
            assert(args.deep_view() =~~= h2 + det_texts(det.take(0)));
        }
        while j < context_broker_params.determiner_schema.len()
            invariant
                j <= context_broker_params.determiner_schema@.len(),
                det.len() == context_broker_params.determiner_schema@.len(),
                args.deep_view() == h2 + det_texts(det.take(j as int)),
            decreases context_broker_params.determiner_schema@.len() - j,
        {
            let ghost before = args.deep_view();
            let s = context_broker_params.determiner_schema[j].0.to_text();
            let t = context_broker_params.determiner_schema[j].1.to_text();
            let ghost sv = s@;
            let ghost tv = t@;
            proof {
                assert(det[j as int] == (element_view(
                    &context_broker_params.determiner_schema@[j as int].0,
                ), element_view(&context_broker_params.determiner_schema@[j as int].1)));
            }
            crate::helpers::push_string(&mut args, s);
            crate::helpers::push_string(&mut args, t);
            proof {
                lemma_det_texts_push(det.take(j as int), det[j as int]);
                assert(det.take(j + 1) =~~= det.take(j as int).push(det[j as int]));
                assert(args.deep_view() =~~= before + seq![sv, tv]);
                assert(args.deep_view() =~~= h2 + det_texts(det.take(j + 1)));
            }
            j += 1;
        }
        proof {
            assert(det.take(j as int) =~~= det);
        }

        crate::helpers::push_string(&mut args, key.clone());
        crate::helpers::push_string(&mut args, name.clone());
        proof {
            assert(args.deep_view() =~~= context_args(
                *params,
                name@,
                atom_view(&context_broker_params.query_atom),
                det,
                stim,
            ));
        }
        base.args = args;

        let mut determiner_schema: Vec<(QueryElement, QueryElement)> = Vec::new();
        let mut k: usize = 0;
        proof {
            assert(det_view(determiner_schema@) =~~= det.take(0));
        }
        while k < context_broker_params.determiner_schema.len()
            invariant
                k <= context_broker_params.determiner_schema@.len(),
                det.len() == context_broker_params.determiner_schema@.len(),
                det_view(determiner_schema@) == det.take(k as int),
            decreases context_broker_params.determiner_schema@.len() - k,
        {
            let ghost before = determiner_schema@;
            let s = context_broker_params.determiner_schema[k].0.clone_element();
            let t = context_broker_params.determiner_schema[k].1.clone_element();
            determiner_schema.push((s, t));
            proof {
                assert(det[k as int] == (element_view(
                    &context_broker_params.determiner_schema@[k as int].0,
                ), element_view(&context_broker_params.determiner_schema@[k as int].1)));
                assert(det_view(determiner_schema@) =~~= det.take(k + 1));
            }
            k += 1;
        }
        proof {
            assert(det.take(k as int) =~~= det);
        }
        let mut stimulus_schema: Vec<QueryElement> = Vec::new();
        let mut k: usize = 0;
        proof {
            assert(elements_view(stimulus_schema@) =~~= stim.take(0));
        }
        while k < context_broker_params.stimulus_schema.len()
            invariant
                k <= context_broker_params.stimulus_schema@.len(),
                stim.len() == context_broker_params.stimulus_schema@.len(),
                elements_view(stimulus_schema@) == stim.take(k as int),
            decreases context_broker_params.stimulus_schema@.len() - k,
        {
            let e = context_broker_params.stimulus_schema[k].clone_element();
            stimulus_schema.push(e);
            proof {
                assert(stim[k as int] == element_view(
                    &context_broker_params.stimulus_schema@[k as int],
                ));
                assert(elements_view(stimulus_schema@) =~~= stim.take(k + 1));
            }
            k += 1;
        }
        proof {
            assert(stim.take(k as int) =~~= stim);
        }
        Ok(ContextBrokerProxy { base, name, key, determiner_schema, stimulus_schema })
    }

    /// The context's name.
    pub fn get_name(&self) -> (r: String)
        ensures
            r@ == self.name@,
    {
        self.name.clone()
    }

    /// The context's key.
    pub fn get_key(&self) -> (r: String)
        ensures
            r@ == self.key@,
    {
        self.key.clone()
    }

    /// Whether the remote context has been created.
    pub fn is_context_created(&self) -> (r: bool)
        ensures
            r == self.base.context_created,
    {
        self.base.context_created
    }
}

/// The determiner pairs an atom stands for: each child an expression of
/// exactly two query elements.
pub open spec fn det_of_children(ds: Seq<AtomView>) -> Option<Seq<(ElementView, ElementView)>>
    decreases ds.len(),
{
    if ds.len() == 0 {
        Some(Seq::empty())
    } else {
        match ds[0] {
            AtomView::Expression(p) => if p.len() == 2 {
                match (element_of_atom(p[0]), element_of_atom(p[1])) {
                    (Some(a), Some(b)) => match det_of_children(ds.drop_first()) {
                        Some(rest) => Some(seq![(a, b)] + rest),
                        None => None,
                    },
                    _ => None,
                }
            } else {
                None
            },
            _ => None,
        }
    }
}

/// The stimulus elements an atom stands for: each child one query element.
pub open spec fn stim_of_children(ds: Seq<AtomView>) -> Option<Seq<ElementView>>
    decreases ds.len(),
{
    if ds.len() == 0 {
        Some(Seq::empty())
    } else {
        match element_of_atom(ds[0]) {
            Some(e) => match stim_of_children(ds.drop_first()) {
                Some(rest) => Some(seq![e] + rest),
                None => None,
            },
            None => None,
        }
    }
}

/// Whether an atom parses as context-broker parameters, and to what.
pub open spec fn context_params_of(v: AtomView) -> Option<
    (AtomView, Seq<(ElementView, ElementView)>, Seq<ElementView>),
> {
    match v {
        AtomView::Expression(children) => if children.len() >= 3 {
            match (children[1], children[2]) {
                (AtomView::Expression(ds), AtomView::Expression(ss)) => {
                    match (det_of_children(ds), stim_of_children(ss)) {
                        (Some(det), Some(stim)) => Some((children[0], det, stim)),
                        _ => None,
                    }
                },
                _ => None,
            }
        } else {
            None
        },
        _ => None,
    }
}

/// Reads context-broker parameters out of a request atom: a query, a
/// determiner schema of source/target pairs and a stimulus schema.  An
/// error reports any other shape.
#[verifier::loop_isolation(false)]
pub fn parse_context_broker_parameters(atom: &Atom) -> (r: Result<ContextBrokerParams, String>)
    ensures
        r is Ok <==> context_params_of(atom_view(atom)) is Some,
        r matches Ok(p) ==> {
            &&& context_params_of(atom_view(atom)) matches Some(t)
            &&& atom_view(&p.query_atom) == t.0
            &&& det_view(p.determiner_schema@) == t.1
            &&& elements_view(p.stimulus_schema@) == t.2
        },
{
    let err =
        "CONTEXT query must have ((query) (determiner schema) (stimulus schema))";
    let children = match atom {
        Atom::Expression(children) => children,
        _ => {
            return Err(String::from_str(err));
        },
    };
    proof {
        crate::atoms::lemma_atoms_view(children@);
    }
    if children.len() < 3 {
        return Err(String::from_str(err));
    }
    let query_atom = children[0].clone_atom();
    let det_children = match &children[1] {
        Atom::Expression(ds) => ds,
        _ => {
            return Err(String::from_str(err));
        },
    };
    let stim_children = match &children[2] {
        Atom::Expression(ss) => ss,
        _ => {
            return Err(String::from_str(err));
        },
    };
    proof {
        crate::atoms::lemma_atoms_view(det_children@);
        crate::atoms::lemma_atoms_view(stim_children@);
    }
    let ghost dv = atoms_view(det_children@);
    let ghost sv = atoms_view(stim_children@);

    let mut determiner_schema: Vec<(QueryElement, QueryElement)> = Vec::new();
    let mut i: usize = 0;
    proof {
        assert(dv.skip(0) =~~= dv);
    }
    while i < det_children.len()
        invariant
            i <= det_children@.len(),
            dv.len() == det_children@.len(),
            forall|k: int| 0 <= k < dv.len() ==> dv[k] == atom_view(&det_children@[k]),
            det_of_children(dv) matches Some(full) ==> (det_of_children(dv.skip(i as int))
                matches Some(rest) && full == det_view(determiner_schema@) + rest),
            det_of_children(dv) is None <==> det_of_children(dv.skip(i as int)) is None,
        decreases det_children@.len() - i,
    {
        proof {
            assert(dv.skip(i as int)[0] == dv[i as int]);
            assert(dv.skip(i as int).drop_first() =~~= dv.skip(i + 1));
        }
        let pair_children = match &det_children[i] {
            Atom::Expression(p) => p,
            _ => {
                return Err(String::from_str(err));
            },
        };
        proof {
            crate::atoms::lemma_atoms_view(pair_children@);
        }
        if pair_children.len() != 2 {
            return Err(String::from_str(err));
        }
        let a = match QueryElement::try_from_atom(&pair_children[0]) {
            Ok(e) => e,
            Err(e) => {
                return Err(e);
            },
        };
        let b = match QueryElement::try_from_atom(&pair_children[1]) {
            Ok(e) => e,
            Err(e) => {
                return Err(e);
            },
        };
        let ghost before = det_view(determiner_schema@);
        let ghost av = element_view(&a);
        let ghost bv = element_view(&b);
        determiner_schema.push((a, b));
        proof {
            assert(det_view(determiner_schema@) =~~= before.push((av, bv)));
            if det_of_children(dv.skip(i + 1)) is Some {
                let rest2 = det_of_children(dv.skip(i + 1))->Some_0;
                assert(before + (seq![(av, bv)] + rest2) =~~= before.push((av, bv)) + rest2);
            }
        }
        i += 1;
    }
    proof {
        assert(dv.skip(i as int).len() == 0);
        assert(det_of_children(dv.skip(i as int)) == Some(Seq::<(ElementView, ElementView)>::empty()));
        assert(det_view(determiner_schema@) + Seq::<(ElementView, ElementView)>::empty()
            =~~= det_view(determiner_schema@));
    }

    let mut stimulus_schema: Vec<QueryElement> = Vec::new();
    let mut j: usize = 0;
    proof {
        assert(sv.skip(0) =~~= sv);
    }
    while j < stim_children.len()
        invariant
            j <= stim_children@.len(),
            sv.len() == stim_children@.len(),
            forall|k: int| 0 <= k < sv.len() ==> sv[k] == atom_view(&stim_children@[k]),
            stim_of_children(sv) matches Some(full) ==> (stim_of_children(sv.skip(j as int))
                matches Some(rest) && full == elements_view(stimulus_schema@) + rest),
            stim_of_children(sv) is None <==> stim_of_children(sv.skip(j as int)) is None,
        decreases stim_children@.len() - j,
    {
        proof {
            assert(sv.skip(j as int)[0] == sv[j as int]);
            assert(sv.skip(j as int).drop_first() =~~= sv.skip(j + 1));
        }
        let e = match QueryElement::try_from_atom(&stim_children[j]) {
            Ok(e) => e,
            Err(e) => {
                return Err(e);
            },
        };
        let ghost before = elements_view(stimulus_schema@);
        let ghost ev = element_view(&e);
        stimulus_schema.push(e);
        proof {
            assert(elements_view(stimulus_schema@) =~~= before.push(ev));
            if stim_of_children(sv.skip(j + 1)) is Some {
                let rest2 = stim_of_children(sv.skip(j + 1))->Some_0;
                assert(before + (seq![ev] + rest2) =~~= before.push(ev) + rest2);
            }
        }
        j += 1;
    }
    proof {
        assert(sv.skip(j as int).len() == 0);
        assert(stim_of_children(sv.skip(j as int)) == Some(Seq::<ElementView>::empty()));
        assert(elements_view(stimulus_schema@) + Seq::<ElementView>::empty() =~~= elements_view(
            stimulus_schema@,
        ));
    }
    Ok(ContextBrokerParams { query_atom, determiner_schema, stimulus_schema })
}

} // verus!
