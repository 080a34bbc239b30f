//! Link-creation queries: the argument encoder for the `link_creation`
//! command and its parameter parser.

use vstd::prelude::*;

use crate::assoc::assoc_insert;
use crate::atoms::{atom_text, atom_view, atoms_view, Atom, AtomView};
use crate::bus::LINK_CREATION_CMD;
use crate::context_broker::{hash_context, md5_hex};
use crate::properties::{wire_view, PropView, PropertyValue, CONTEXT};
use crate::proxy::{fresh_base, BaseQueryProxy};
use crate::text::{dec_str, str_concat, u64_to_string};
use crate::QueryParams;

verus! {

/// The parameters of one link-creation query: the query pattern and the
/// templates of the links to create.
pub struct LinkCreationParams {
    pub query: Atom,
    pub templates: Vec<Atom>,
}

/// The texts of a run of atoms.
pub open spec fn atom_texts(s: Seq<AtomView>) -> Seq<Seq<char>> {
    s.map_values(|v: AtomView| atom_text(v))
}

/// The wire arguments of a link-creation query: the serialized properties
/// with the context entry replaced by the hash of the context name, then
/// the query text and the template texts.
pub open spec fn link_creation_args(params: QueryParams, lp: LinkCreationParams) -> Seq<
    Seq<char>,
> {
    let ctx = crate::assoc::lookup(params.properties@, CONTEXT@)->Some_0->Text_0;
    wire_view(assoc_insert(params.properties@, CONTEXT@, PropView::Text(md5_hex(ctx)))) + seq![
        atom_text(atom_view(&lp.query)),
    ] + atom_texts(atoms_view(lp.templates@))
}

/// A proxy for one link-creation query, carrying its request id: the hash
/// of the remote peer identity joined with the request serial.
pub struct LinkCreationProxy {
    pub base: BaseQueryProxy,
    pub id: String,
    pub query: Atom,
    pub templates: Vec<Atom>,
}

impl LinkCreationProxy {
    /// A proxy whose arguments encode `params` and `link_creation_params`
    /// for the link-creation command.  An error reports a missing or
    /// non-boolean count flag, or a missing or non-string context property.
    #[verifier::loop_isolation(false)]
    pub fn new(params: &QueryParams, link_creation_params: &LinkCreationParams) -> (r: Result<
        LinkCreationProxy,
        String,
    >)
        requires
            3 * (params.properties@.len() + 1) <= u64::MAX,
        ensures
            r is Ok <==> ((crate::assoc::lookup(params.properties@, crate::properties::COUNT_FLAG@)
                matches Some(PropView::Bool(_))) && (crate::assoc::lookup(
                params.properties@,
                CONTEXT@,
            ) matches Some(PropView::Text(_)))),
            r matches Ok(p) ==> {
                &&& fresh_base(p.base, LINK_CREATION_CMD@, *params)
                &&& p.base.args.deep_view() == link_creation_args(*params, *link_creation_params)
                &&& p.id@ == md5_hex(Seq::<char>::empty() + dec_str(0))
                &&& atom_view(&p.query) == atom_view(&link_creation_params.query)
                &&& atoms_view(p.templates@) == atoms_view(link_creation_params.templates@)
            },
    {
        let mut base = match BaseQueryProxy::new(String::from_str(LINK_CREATION_CMD), params) {
            Ok(b) => b,
            Err(e) => {
                return Err(e);
            },
        };
        let context_name = match params.properties.get_text(CONTEXT) {
            Ok(s) => s,
            Err(e) => {
                return Err(e);
            },
        };
        let mut properties = params.properties.clone();
        properties.insert(
            String::from_str(CONTEXT),
            PropertyValue::Text(hash_context(context_name.as_str())),
        );
        proof {
            crate::assoc::lemma_key_at(params.properties@, CONTEXT@);
            assert(properties@ == assoc_insert(
                params.properties@,
                CONTEXT@,
                PropView::Text(md5_hex(context_name@)),
            ));
        }
        let mut args = properties.to_vec();
        args.push(link_creation_params.query.to_text());
        let ghost head = args.deep_view();
        let ghost tv = atoms_view(link_creation_params.templates@);
        proof {
            crate::atoms::lemma_atoms_view(link_creation_params.templates@);
            assert(args.deep_view() =~~= head + atom_texts(tv).take(0));
        }
        let mut i: usize = 0;
        while i < link_creation_params.templates.len()
            invariant
                i <= link_creation_params.templates@.len(),
                tv.len() == link_creation_params.templates@.len(),
                forall|k: int| 0 <= k < tv.len() ==> tv[k] == atom_view(
                    &link_creation_params.templates@[k],
                ),
                args.deep_view() == head + atom_texts(tv).take(i as int),
            decreases link_creation_params.templates@.len() - i,
        {
            let ghost before = args.deep_view();
            let t = link_creation_params.templates[i].to_text();
            let ghost txt = t@;
            proof {
                assert(atom_texts(tv)[i as int] == atom_text(tv[i as int]));
            }
            args.push(t);
            proof {
                assert(args.deep_view() =~~= before.push(txt));
                assert(args.deep_view() =~~= head + atom_texts(tv).take(i + 1));
            }
            i += 1;
        }
        proof {
            assert(atom_texts(tv).take(i as int) =~~= atom_texts(tv));
        }
        let raw_id = str_concat(
            base.proxy_node.peer_id.as_str(),
            u64_to_string(base.serial).as_str(),
        );
        proof {
            assert(raw_id@ =~~= Seq::<char>::empty() + dec_str(0));
        }
        let id = hash_context(raw_id.as_str());
        base.args = args;
        let query = link_creation_params.query.clone_atom();
        let mut templates: Vec<Atom> = Vec::new();
        let mut j: usize = 0;
        proof {
            assert(atoms_view(templates@) =~~= tv.take(0));
        }
        while j < link_creation_params.templates.len()
            invariant
                j <= link_creation_params.templates@.len(),
                tv.len() == link_creation_params.templates@.len(),
                forall|k: int| 0 <= k < tv.len() ==> tv[k] == atom_view(
                    &link_creation_params.templates@[k],
                ),
                atoms_view(templates@) == tv.take(j as int),
            decreases link_creation_params.templates@.len() - j,
        {
            let ghost before = templates@;
            let c = link_creation_params.templates[j].clone_atom();
            let ghost cx = c;
            templates.push(c);
            proof {
                assert(templates@ =~~= before.push(cx));
                crate::atoms::lemma_atoms_view_push(before, cx);
                assert(atoms_view(templates@) =~~= tv.take(j + 1));
            }
            j += 1;
        }
        proof {
            assert(tv.take(j as int) =~~= tv);
        }
        Ok(LinkCreationProxy { base, id, query, templates })
    }
}

/// Reads link-creation parameters out of a request atom: an expression of
/// at least two children, the first the query pattern and the rest the
/// templates.  An error reports anything else.
pub fn parse_link_creation_parameters(atom: &Atom) -> (r: Result<LinkCreationParams, String>)
    ensures
        r is Ok <==> (atom_view(atom) matches AtomView::Expression(c) && c.len() >= 2),
        r matches Ok(lp) ==> {
            &&& atom_view(&lp.query) == atom_view(atom)->Expression_0[0]
            &&& atoms_view(lp.templates@) == atom_view(atom)->Expression_0.skip(1)
        },
{
    match atom {
        Atom::Expression(children) => {
            proof {
                crate::atoms::lemma_atoms_view(children@);
            }
            if children.len() < 2 {
                return Err(
                    String::from_str("LINK_CREATION command must have a query and templates"),
                );
            }
            let ghost cv = atoms_view(children@);
            let query = children[0].clone_atom();
            let mut templates: Vec<Atom> = Vec::new();
            let mut i: usize = 1;
            proof {
                assert(atoms_view(templates@) =~~= cv.subrange(1, 1));
            }
            let n = children.len();
            while i < n
                invariant
                    1 <= i <= n,
                    n == children@.len(),
                    cv == atoms_view(children@),
                    cv.len() == n,
                    forall|k: int| 0 <= k < n ==> cv[k] == atom_view(&children@[k]),
                    atoms_view(templates@) == cv.subrange(1, i as int),
                decreases n - i,
            {
                let ghost before = templates@;
                let c = children[i].clone_atom();
                let ghost cx = c;
                templates.push(c);
                proof {
                    assert(templates@ =~~= before.push(cx));
                    crate::atoms::lemma_atoms_view_push(before, cx);
                    assert(atoms_view(templates@) =~~= cv.subrange(1, i + 1));
                }
                i += 1;
            }
            proof {
                assert(cv.subrange(1, n as int) =~~= cv.skip(1));
            }
            Ok(LinkCreationParams { query, templates })
        },
        _ => Err(String::from_str("LINK_CREATION command must have a query and templates")),
    }
}

} // verus!
