//! Inference queries: the argument encoder for the `inference` command and
//! its parameter parser.

use vstd::prelude::*;

use crate::atoms::{atom_text, atom_view, atoms_view, Atom, AtomView};
use crate::bus::INFERENCE_CMD;
use crate::helpers::{split_ignore_quoted, split_tokens};
use crate::properties::wire_view;
use crate::proxy::{fresh_base, BaseQueryProxy};
use crate::text::{dec_str, is_u64_text, str_eq, u64_text_val, u64_to_string};
use crate::QueryParams;

verus! {

pub const PROOF_OF_IMPLICATION_OR_EQUIVALENCE: &'static str = "PROOF_OF_IMPLICATION_OR_EQUIVALENCE";

pub const PROOF_OF_IMPLICATION: &'static str = "PROOF_OF_IMPLICATION";

pub const PROOF_OF_EQUIVALENCE: &'static str = "PROOF_OF_EQUIVALENCE";

/// The parameters of one inference query.
#[derive(Debug)]
pub struct InferenceParams {
    pub request_type: String,
    pub handle1: String,
    pub handle2: String,
    pub max_proof_length: u64,
}

/// The wire arguments of an inference query: the serialized properties, the
/// context key, a literal zero (kept for wire compatibility), the request
/// type, the two handles, the proof-length bound, and the context key once
/// more.
pub open spec fn inference_args(params: QueryParams, ip: InferenceParams) -> Seq<Seq<char>> {
    wire_view(params.properties@) + seq![
        params.context_key@,
        "0"@,
        ip.request_type@,
        ip.handle1@,
        ip.handle2@,
        dec_str(ip.max_proof_length as nat),
        params.context_key@,
    ]
}

/// A proxy for one inference query.
pub struct InferenceProxy {
    pub base: BaseQueryProxy,
}

impl InferenceProxy {
    /// A proxy whose arguments encode `params` and `inference_params` for
    /// the inference command.  An error reports a missing or non-boolean
    /// count flag.
    pub fn new(params: &QueryParams, inference_params: &InferenceParams) -> (r: Result<
        InferenceProxy,
        String,
    >)
        requires
            3 * params.properties@.len() <= u64::MAX,
        ensures
            r is Ok <==> crate::assoc::lookup(params.properties@, crate::properties::COUNT_FLAG@)
                matches Some(crate::properties::PropView::Bool(_)),
            r matches Ok(p) ==> {
                &&& fresh_base(p.base, INFERENCE_CMD@, *params)
                &&& p.base.args.deep_view() == inference_args(*params, *inference_params)
            },
    {
        let mut base = match BaseQueryProxy::new(String::from_str(INFERENCE_CMD), params) {
            Ok(b) => b,
            Err(e) => {
                return Err(e);
            },
        };
        let mut args = params.properties.to_vec();
        let ghost a0 = args.deep_view();
        args.push(base.context.clone());
        args.push(String::from_str("0"));
        args.push(inference_params.request_type.clone());
        args.push(inference_params.handle1.clone());
        args.push(inference_params.handle2.clone());
        args.push(u64_to_string(inference_params.max_proof_length));
        args.push(base.context.clone());
        proof {
            assert(args.deep_view() =~~= inference_args(*params, *inference_params));
        }
        base.args = args;
        Ok(InferenceProxy { base })
    }

    /// The recognized inference request types.
    pub fn request_types() -> (r: Vec<String>)
        ensures
            r.deep_view() == seq![
                PROOF_OF_IMPLICATION_OR_EQUIVALENCE@,
                PROOF_OF_IMPLICATION@,
                PROOF_OF_EQUIVALENCE@,
            ],
    {
        let mut r: Vec<String> = Vec::new();
        r.push(String::from_str(PROOF_OF_IMPLICATION_OR_EQUIVALENCE));
        r.push(String::from_str(PROOF_OF_IMPLICATION));
        r.push(String::from_str(PROOF_OF_EQUIVALENCE));
        proof {
            assert(r.deep_view() =~~= seq![
                PROOF_OF_IMPLICATION_OR_EQUIVALENCE@,
                PROOF_OF_IMPLICATION@,
                PROOF_OF_EQUIVALENCE@,
            ]);
        }
        r
    }
}

/// Whether an atom is an inference request: an expression whose first child
/// is the symbol `INFERENCE`.
pub open spec fn is_inference_request(v: AtomView) -> bool {
    v matches AtomView::Expression(children) && children.len() > 0 && children[0]
        == AtomView::Symbol("INFERENCE"@)
}

/// The tokens an inference request body parses to: its second child's text
/// with parentheses removed, split on unquoted whitespace.
pub open spec fn inference_tokens(v: AtomView) -> Seq<Seq<char>>
    recommends
        v matches AtomView::Expression(c) && c.len() >= 2,
{
    split_tokens(
        atom_text(v->Expression_0[1]).filter(|c: char| c != '(' && c != ')'),
    )
}

/// Whether the tokens of an inference request body form valid parameters:
/// four tokens with a numeric proof-length bound.
pub open spec fn inference_tokens_ok(toks: Seq<Seq<char>>) -> bool {
    toks.len() >= 4 && is_u64_text(toks[3])
}

/// Reads inference parameters out of a request atom.  `Ok(None)` reports an
/// atom that is no inference request at all; an error reports a request
/// without a body or whose body does not parse.
pub fn parse_inference_parameters(atom: &Atom) -> (r: Result<Option<InferenceParams>, String>)
    ensures
        (r matches Ok(o) && o is Some) ==> is_inference_request(atom_view(atom)),

        r matches Ok(Some(ip)) ==> {
            let toks = inference_tokens(atom_view(atom));
            &&& atom_view(atom)->Expression_0.len() >= 2
            &&& inference_tokens_ok(toks)
            &&& ip.request_type@ == toks[0]
            &&& ip.handle1@ == toks[1]
            &&& ip.handle2@ == toks[2]
            &&& ip.max_proof_length == u64_text_val(toks[3])
        },
        (r matches Ok(o) && o is None) ==> !is_inference_request(atom_view(atom)),
        r is Err ==> is_inference_request(atom_view(atom)),
{
    match atom {
        Atom::Expression(children) => {
            proof {
                crate::atoms::lemma_atoms_view(children@);
            }
            if children.len() == 0 {
                return Ok(None);
            }
            let is_request = match &children[0] {
                Atom::Symbol(s) => str_eq(s.as_str(), "INFERENCE"),
                _ => false,
            };
            if !is_request {
                return Ok(None);
            }
            if children.len() < 2 {
                return Err(String::from_str("INFERENCE query is missing its body"));
            }
            let body = children[1].to_text();
            let cs = crate::text::chars_of(body.as_str());
            let mut stripped: Vec<char> = Vec::new();
            let mut i: usize = 0;
            proof {
                let p = |c: char| c != '(' && c != ')';
                assert(stripped@ =~~= body@.take(0).filter(p));
                assert(body@.take(0) =~~= Seq::<char>::empty());
            }
            while i < cs.len()
                invariant
                    i <= cs@.len(),
                    cs@ == body@,
                    stripped@ == body@.take(i as int).filter(|c: char| c != '(' && c != ')'),
                decreases cs@.len() - i,
            {
                let c = cs[i];
                proof {
                    let p = |c: char| c != '(' && c != ')';
                    assert(body@.take(i + 1) =~~= body@.take(i as int) + seq![body@[i as int]]);
                    Seq::<char>::filter_distributes_over_add(
                        body@.take(i as int),
                        seq![body@[i as int]],
                        p,
                    );
                    reveal_with_fuel(Seq::<char>::filter, 2);
                    assert(seq![body@[i as int]].filter(p) =~~= if p(body@[i as int]) {
                        seq![body@[i as int]]
                    } else {
                        Seq::<char>::empty()
                    });
                }
                if c != '(' && c != ')' {
                    stripped.push(c);
                }
                i += 1;
            }
            proof {
                assert(body@.take(i as int) =~~= body@);
            }
            let stripped_s = crate::text::string_of_chars(&stripped);
            let tokens = split_ignore_quoted(stripped_s.as_str());
            if tokens.len() < 4 {
                return Err(String::from_str("INFERENCE query body must have four fields"));
            }
            let bound = match crate::text::parse_u64(&crate::text::chars_of(tokens[3].as_str())) {
                Some(v) => v,
                None => {
                    return Err(String::from_str("INFERENCE proof length must be numeric"));
                },
            };
            proof {
                assert(tokens.deep_view()[0] == tokens@[0 as int]@);
                assert(tokens.deep_view()[1] == tokens@[1 as int]@);
                assert(tokens.deep_view()[2] == tokens@[2 as int]@);
                assert(tokens.deep_view()[3] == tokens@[3 as int]@);
            }
            Ok(
                Some(
                    InferenceParams {
                        request_type: tokens[0].clone(),
                        handle1: tokens[1].clone(),
                        handle2: tokens[2].clone(),
                        max_proof_length: bound,
                    },
                ),
            )
        },
        _ => Ok(None),
    }
}

} // verus!
