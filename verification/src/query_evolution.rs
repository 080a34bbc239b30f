//! Evolutionary queries: the argument encoder for the `query_evolution`
//! command, its parameter parser, and the fitness feedback loop's verified
//! steps.  The host's interpreter callback runs outside the library; the
//! library prepares the candidate expressions and the response frame.

use vstd::prelude::*;

use crate::atoms::{atom_text, atom_view, atoms_view, Atom, AtomView};
use crate::bindings::Bindings;
use crate::bus::QUERY_EVOLUTION_CMD;
use crate::codec::{answer_bindings, parse_answer, parse_query_answer};
use crate::context_broker::{det_texts, det_view};
use crate::helpers::{extend_strings, push_string};
use crate::properties::{wire_view, PropView, POPULATION_SIZE};
use crate::proxy::{fresh_base, BaseQueryProxy, MessageData};
use crate::query_element::{element_text, element_view, ElementView, QueryElement};
use crate::text::{dec_str, str_concat, u64_to_string};
use crate::QueryParams;

verus! {

pub const REMOTE_FUNCTION: &'static str = "remote_fitness_function";

pub const EVAL_FITNESS: &'static str = "eval_fitness";

pub const EVAL_FITNESS_RESPONSE: &'static str = "eval_fitness_response";

/// The parameters of one evolution query.
pub struct QueryEvolutionParams {
    pub query_atom: Atom,
    pub correlation_queries: Vec<Vec<String>>,
    pub correlation_replacements: Vec<Vec<(String, QueryElement)>>,
    pub correlation_mappings: Vec<(QueryElement, QueryElement)>,
    pub fitness_function: String,
}

/// The view of a run of replacement maps.
pub open spec fn repl_view(s: Seq<Vec<(String, QueryElement)>>) -> Seq<
    Seq<(Seq<char>, ElementView)>,
> {
    s.map_values(
        |v: Vec<(String, QueryElement)>|
            v@.map_values(|p: (String, QueryElement)| (p.0@, element_view(&p.1))),
    )
}

/// The wire texts of a run of correlation queries: each one's token count,
/// then its tokens.
pub open spec fn cq_texts(s: Seq<Seq<Seq<char>>>) -> Seq<Seq<char>>
    decreases s.len(),
{
    if s.len() == 0 {
        Seq::empty()
    } else {
        seq![dec_str(s[0].len())] + s[0] + cq_texts(s.drop_first())
    }
}

/// The wire texts of one replacement map: key, then element text, for each
/// pair.
pub open spec fn repl_entry_texts(m: Seq<(Seq<char>, ElementView)>) -> Seq<Seq<char>>
    decreases m.len(),
{
    if m.len() == 0 {
        Seq::empty()
    } else {
        seq![m[0].0, element_text(m[0].1)] + repl_entry_texts(m.drop_first())
    }
}

/// The wire texts of a run of replacement maps: each one's pair count, then
/// its pairs.
pub open spec fn repl_texts(s: Seq<Seq<(Seq<char>, ElementView)>>) -> Seq<Seq<char>>
    decreases s.len(),
{
    if s.len() == 0 {
        Seq::empty()
    } else {
        seq![dec_str(s[0].len())] + repl_entry_texts(s[0]) + repl_texts(s.drop_first())
    }
}

/// The wire arguments of an evolution query: the serialized properties, the
/// context key, one query token, the remote-fitness marker, then the
/// counted correlation queries, replacement maps and mappings.
pub open spec fn evolution_args(
    params: QueryParams,
    query: AtomView,
    cq: Seq<Seq<Seq<char>>>,
    repl: Seq<Seq<(Seq<char>, ElementView)>>,
    mappings: Seq<(ElementView, ElementView)>,
) -> Seq<Seq<char>> {
    wire_view(params.properties@) + seq![
        params.context_key@,
        dec_str(1),
        atom_text(query),
        REMOTE_FUNCTION@,
    ] + seq![dec_str(cq.len())] + cq_texts(cq) + seq![dec_str(repl.len())] + repl_texts(repl)
        + seq![dec_str(mappings.len())] + det_texts(mappings)
}

/// A proxy for one evolution query, carrying the population size and the
/// caller's fitness-function text.
pub struct QueryEvolutionProxy {
    pub base: BaseQueryProxy,
    pub population_size: u64,
    pub num_generations: u64,
    pub fitness_function: String,
    pub ongoing_remote_fitness_evaluation: bool,
    pub correlation_queries: Vec<Vec<String>>,
    pub correlation_replacements: Vec<Vec<(String, QueryElement)>>,
    pub correlation_mappings: Vec<(QueryElement, QueryElement)>,
}

proof fn lemma_cq_texts_push(s: Seq<Seq<Seq<char>>>, e: Seq<Seq<char>>)
    ensures
        cq_texts(s.push(e)) == cq_texts(s) + (seq![dec_str(e.len())] + e),
    decreases s.len(),
{
    if s.len() == 0 {
        assert(s.push(e)[0] == e);
        assert(s.push(e).drop_first() =~~= Seq::<Seq<Seq<char>>>::empty());
        assert(cq_texts(Seq::<Seq<Seq<char>>>::empty()) =~~= Seq::<Seq<char>>::empty());
        assert(cq_texts(s.push(e)) =~~= cq_texts(s) + (seq![dec_str(e.len())] + e));
    } else {
        lemma_cq_texts_push(s.drop_first(), e);
        assert(s.push(e)[0] == s[0]);
        assert(s.push(e).drop_first() =~~= s.drop_first().push(e));
        assert(cq_texts(s.push(e)) =~~= cq_texts(s) + (seq![dec_str(e.len())] + e));
    }
}

proof fn lemma_repl_texts_push(s: Seq<Seq<(Seq<char>, ElementView)>>, e: Seq<(Seq<char>, ElementView)>)
    ensures
        repl_texts(s.push(e)) == repl_texts(s) + (seq![dec_str(e.len())] + repl_entry_texts(e)),
    decreases s.len(),
{
    if s.len() == 0 {
        assert(s.push(e)[0] == e);
        assert(s.push(e).drop_first() =~~= Seq::<Seq<(Seq<char>, ElementView)>>::empty());
        assert(repl_texts(Seq::<Seq<(Seq<char>, ElementView)>>::empty()) =~~= Seq::<
            Seq<char>,
        >::empty());
        assert(repl_texts(s.push(e)) =~~= repl_texts(s) + (seq![dec_str(e.len())]
            + repl_entry_texts(e)));
    } else {
        lemma_repl_texts_push(s.drop_first(), e);
        assert(s.push(e)[0] == s[0]);
        assert(s.push(e).drop_first() =~~= s.drop_first().push(e));
        assert(repl_texts(s.push(e)) =~~= repl_texts(s) + (seq![dec_str(e.len())]
            + repl_entry_texts(e)));
    }
}

proof fn lemma_repl_entry_push(m: Seq<(Seq<char>, ElementView)>, e: (Seq<char>, ElementView))
    ensures
        repl_entry_texts(m.push(e)) == repl_entry_texts(m) + seq![e.0, element_text(e.1)],
    decreases m.len(),
{
    if m.len() == 0 {
        assert(m.push(e)[0] == e);
        assert(m.push(e).drop_first() =~~= Seq::<(Seq<char>, ElementView)>::empty());
        assert(repl_entry_texts(Seq::<(Seq<char>, ElementView)>::empty()) =~~= Seq::<
            Seq<char>,
        >::empty());
        assert(repl_entry_texts(m.push(e)) =~~= repl_entry_texts(m) + seq![
            e.0,
            element_text(e.1),
        ]);
    } else {
        lemma_repl_entry_push(m.drop_first(), e);
        assert(m.push(e)[0] == m[0]);
        assert(m.push(e).drop_first() =~~= m.drop_first().push(e));
        assert(repl_entry_texts(m.push(e)) =~~= repl_entry_texts(m) + seq![
            e.0,
            element_text(e.1),
        ]);
    }
}

impl QueryEvolutionProxy {
    /// A proxy whose arguments encode `params` and `evolution_params` for
    /// the evolution command.  An error reports a missing or non-boolean
    /// count flag or a missing or non-numeric population size.
    #[verifier::loop_isolation(false)]
    #[verifier::rlimit(60)]
    pub fn new(params: &QueryParams, evolution_params: &QueryEvolutionParams) -> (r: Result<
        QueryEvolutionProxy,
        String,
    >)
        requires
            3 * params.properties@.len() <= u64::MAX,
        ensures
            r is Ok <==> ((crate::assoc::lookup(params.properties@, crate::properties::COUNT_FLAG@)
                matches Some(PropView::Bool(_))) && (crate::assoc::lookup(
                params.properties@,
                POPULATION_SIZE@,
            ) matches Some(PropView::UnsignedInt(_)))),
            r matches Ok(p) ==> {
                &&& fresh_base(p.base, QUERY_EVOLUTION_CMD@, *params)
                &&& p.base.args.deep_view() == evolution_args(
                    *params,
                    atom_view(&evolution_params.query_atom),
                    evolution_params.correlation_queries.deep_view(),
                    repl_view(evolution_params.correlation_replacements@),
                    det_view(evolution_params.correlation_mappings@),
                )
                &&& Some(PropView::UnsignedInt(p.population_size as int)) == crate::assoc::lookup(
                    params.properties@,
                    POPULATION_SIZE@,
                )
                &&& p.num_generations == 0
                &&& !p.ongoing_remote_fitness_evaluation
                &&& p.fitness_function@ == evolution_params.fitness_function@
            },
    {
        let mut base = match BaseQueryProxy::new(String::from_str(QUERY_EVOLUTION_CMD), params) {
            Ok(b) => b,
            Err(e) => {
                return Err(e);
            },
        };
        let population_size = match params.properties.get_u64(POPULATION_SIZE) {
            Ok(v) => v,
            Err(e) => {
                return Err(e);
            },
        };
        let mut args = params.properties.to_vec();
        push_string(&mut args, base.context.clone());
        push_string(&mut args, u64_to_string(1));
        push_string(&mut args, evolution_params.query_atom.to_text());
        push_string(&mut args, String::from_str(REMOTE_FUNCTION));

        let ghost cq = evolution_params.correlation_queries.deep_view();
        push_string(
            &mut args,
            u64_to_string(evolution_params.correlation_queries.len() as u64),
        );
        let ghost h1 = args.deep_view();
        let mut i: usize = 0;
        proof {
            assert(cq.take(0) =~~= Seq::<Seq<Seq<char>>>::empty());
            assert(cq_texts(cq.take(0)) =~~= Seq::<Seq<char>>::empty());
            assert(args.deep_view() =~~= h1 + cq_texts(cq.take(0)));
        }
        while i < evolution_params.correlation_queries.len()
            invariant
                i <= evolution_params.correlation_queries@.len(),
                cq.len() == evolution_params.correlation_queries@.len(),
                forall|k: int|
                    0 <= k < cq.len() ==> #[trigger] cq[k]
                        == evolution_params.correlation_queries@[k].deep_view(),
                args.deep_view() == h1 + cq_texts(cq.take(i as int)),
            decreases evolution_params.correlation_queries@.len() - i,
        {
            let ghost before = args.deep_view();
            let inner = &evolution_params.correlation_queries[i];
            push_string(&mut args, u64_to_string(inner.len() as u64));
            extend_strings(&mut args, inner);
            proof {
                lemma_cq_texts_push(cq.take(i as int), cq[i as int]);
                assert(cq.take(i + 1) =~~= cq.take(i as int).push(cq[i as int]));
                assert(args.deep_view() =~~= before + (seq![dec_str(cq[i as int].len())]
                    + cq[i as int]));
                assert(args.deep_view() =~~= h1 + cq_texts(cq.take(i + 1)));
            }
            i += 1;
        }
        proof {
            assert(cq.take(i as int) =~~= cq);
        }

        let ghost rv = repl_view(evolution_params.correlation_replacements@);
        push_string(
            &mut args,
            u64_to_string(evolution_params.correlation_replacements.len() as u64),
        );
        let ghost h2 = args.deep_view();
        let mut i: usize = 0;
        proof {
            assert(rv.take(0) =~~= Seq::<Seq<(Seq<char>, ElementView)>>::empty());
            assert(repl_texts(rv.take(0)) =~~= Seq::<Seq<char>>::empty());
            assert(args.deep_view() =~~= h2 + repl_texts(rv.take(0)));
        }
        while i < evolution_params.correlation_replacements.len()
            invariant
                i <= evolution_params.correlation_replacements@.len(),
                rv.len() == evolution_params.correlation_replacements@.len(),
                forall|k: int|
                    0 <= k < rv.len() ==> #[trigger] rv[k]
                        == evolution_params.correlation_replacements@[k]@.map_values(
                        |p: (String, QueryElement)| (p.0@, element_view(&p.1)),
                    ),
                args.deep_view() == h2 + repl_texts(rv.take(i as int)),
            decreases evolution_params.correlation_replacements@.len() - i,
        {
            let ghost before = args.deep_view();
            let inner = &evolution_params.correlation_replacements[i];
            let ghost mv = rv[i as int];
            push_string(&mut args, u64_to_string(inner.len() as u64));
            let ghost head = args.deep_view();
            let mut j: usize = 0;
            proof {
                assert(mv.take(0) =~~= Seq::<(Seq<char>, ElementView)>::empty());
                assert(repl_entry_texts(mv.take(0)) =~~= Seq::<Seq<char>>::empty());
                assert(args.deep_view() =~~= head + repl_entry_texts(mv.take(0)));
            }
            while j < inner.len()
                invariant
                    j <= inner@.len(),
                    mv.len() == inner@.len(),
                    forall|k: int|
                        0 <= k < mv.len() ==> mv[k] == (
                        (#[trigger] inner@[k]).0@, element_view(&inner@[k].1)),
                    args.deep_view() == head + repl_entry_texts(mv.take(j as int)),
                decreases inner@.len() - j,
            {
                let ghost b2 = args.deep_view();
                push_string(&mut args, inner[j].0.clone());
                push_string(&mut args, inner[j].1.to_text());
                proof {
                    lemma_repl_entry_push(mv.take(j as int), mv[j as int]);
                    assert(mv.take(j + 1) =~~= mv.take(j as int).push(mv[j as int]));
                    assert(args.deep_view() =~~= b2 + seq![mv[j as int].0, element_text(
                        mv[j as int].1,
                    )]);
                    assert(args.deep_view() =~~= head + repl_entry_texts(mv.take(j + 1)));
                }
                j += 1;
            }
            proof {
                assert(mv.take(j as int) =~~= mv);
                lemma_repl_texts_push(rv.take(i as int), mv);
                assert(rv.take(i + 1) =~~= rv.take(i as int).push(mv));
                assert(args.deep_view() =~~= before + (seq![dec_str(mv.len())]
                    + repl_entry_texts(mv)));
                assert(args.deep_view() =~~= h2 + repl_texts(rv.take(i + 1)));
            }
            i += 1;
        }
        proof {
            assert(rv.take(i as int) =~~= rv);
        }

        let ghost mapv = det_view(evolution_params.correlation_mappings@);
        push_string(
            &mut args,
            u64_to_string(evolution_params.correlation_mappings.len() as u64),
        );
        let ghost h3 = args.deep_view();
        let mut i: usize = 0;
        proof {
            assert(mapv.take(0) =~~= Seq::<(ElementView, ElementView)>::empty());
            assert(det_texts(mapv.take(0)) =~~= Seq::<Seq<char>>::empty());
            assert(args.deep_view() =~~= h3 + det_texts(mapv.take(0)));
        }
        while i < evolution_params.correlation_mappings.len()
            invariant
                i <= evolution_params.correlation_mappings@.len(),
                mapv.len() == evolution_params.correlation_mappings@.len(),
                args.deep_view() == h3 + det_texts(mapv.take(i as int)),
            decreases evolution_params.correlation_mappings@.len() - i,
        {
            let ghost before = args.deep_view();
            proof {
                assert(mapv[i as int] == (element_view(
                    &evolution_params.correlation_mappings@[i as int].0,
                ), element_view(&evolution_params.correlation_mappings@[i as int].1)));
            }
            push_string(&mut args, evolution_params.correlation_mappings[i].0.to_text());
            push_string(&mut args, evolution_params.correlation_mappings[i].1.to_text());
            proof {
                crate::context_broker::lemma_det_texts_push(mapv.take(i as int), mapv[i as int]);
                assert(mapv.take(i + 1) =~~= mapv.take(i as int).push(mapv[i as int]));
                assert(args.deep_view() =~~= before + seq![element_text(mapv[i as int].0),
                element_text(mapv[i as int].1)]);
                assert(args.deep_view() =~~= h3 + det_texts(mapv.take(i + 1)));
            }
            i += 1;
        }
        proof {
            assert(mapv.take(i as int) =~~= mapv);
            assert(args.deep_view() =~~= evolution_args(
                *params,
                atom_view(&evolution_params.query_atom),
                cq,
                rv,
                mapv,
            ));
        }
        base.args = args;

        let mut correlation_queries: Vec<Vec<String>> = Vec::new();
        let mut k: usize = 0;
        while k < evolution_params.correlation_queries.len()
            invariant
                k <= evolution_params.correlation_queries@.len(),
                correlation_queries@.len() == k,
            decreases evolution_params.correlation_queries@.len() - k,
        {
            correlation_queries.push(
                crate::helpers::clone_strings(&evolution_params.correlation_queries[k]),
            );
            k += 1;
        }
        let mut correlation_replacements: Vec<Vec<(String, QueryElement)>> = Vec::new();
        let mut k: usize = 0;
        while k < evolution_params.correlation_replacements.len()
            invariant
                k <= evolution_params.correlation_replacements@.len(),
            decreases evolution_params.correlation_replacements@.len() - k,
        {
            let inner = &evolution_params.correlation_replacements[k];
            let mut m: Vec<(String, QueryElement)> = Vec::new();
            let mut j: usize = 0;
            while j < inner.len()
                invariant
                    j <= inner@.len(),
                decreases inner@.len() - j,
            {
                m.push((inner[j].0.clone(), inner[j].1.clone_element()));
                j += 1;
            }
            correlation_replacements.push(m);
            k += 1;
        }
        let mut correlation_mappings: Vec<(QueryElement, QueryElement)> = Vec::new();
        let mut k: usize = 0;
        while k < evolution_params.correlation_mappings.len()
            invariant
                k <= evolution_params.correlation_mappings@.len(),
            decreases evolution_params.correlation_mappings@.len() - k,
        {
            correlation_mappings.push(
                (
                    evolution_params.correlation_mappings[k].0.clone_element(),
                    evolution_params.correlation_mappings[k].1.clone_element(),
                ),
            );
            k += 1;
        }
        Ok(
            QueryEvolutionProxy {
                base,
                population_size,
                num_generations: 0,
                fitness_function: evolution_params.fitness_function.clone(),
                ongoing_remote_fitness_evaluation: false,
                correlation_queries,
                correlation_replacements,
                correlation_mappings,
            },
        )
    }
}

/// One pass of string replacement: every non-overlapping occurrence of
/// `pat`, scanned left to right, becomes `rep`.
pub open spec fn replace_all(s: Seq<char>, pat: Seq<char>, rep: Seq<char>) -> Seq<char>
    recommends
        pat.len() > 0,
    decreases s.len(),
{
    if s.len() == 0 || pat.len() == 0 {
        s
    } else if pat.len() <= s.len() && s.take(pat.len() as int) == pat {
        rep + replace_all(s.skip(pat.len() as int), pat, rep)
    } else {
        seq![s[0]] + replace_all(s.drop_first(), pat, rep)
    }
}

/// The fitness-function text with every binding substituted, in binding
/// order: each `$name` becomes the bound atom's text.
pub open spec fn subst_fold(ff: Seq<char>, pairs: Seq<(Seq<char>, AtomView)>) -> Seq<char>
    decreases pairs.len(),
{
    if pairs.len() == 0 {
        ff
    } else {
        subst_fold(
            replace_all(ff, seq!['$'] + pairs[0].0, atom_text(pairs[0].1)),
            pairs.drop_first(),
        )
    }
}

/// Whether `ps` occurs in `cs` starting at `i`.
#[verifier::loop_isolation(false)]
fn is_prefix_at(cs: &Vec<char>, ps: &Vec<char>, i: usize) -> (r: bool)
    requires
        i + ps@.len() <= cs@.len(),
        i + ps@.len() <= usize::MAX,
    ensures
        r == (cs@.subrange(i as int, i + ps@.len()) == ps@),
{
    let mut j: usize = 0;
    while j < ps.len()
        invariant
            j <= ps@.len(),
            forall|k: int| 0 <= k < j ==> cs@[i + k] == ps@[k],
        decreases ps@.len() - j,
    {
        if cs[i + j] != ps[j] {
            proof {
                assert(cs@.subrange(i as int, i + ps@.len())[j as int] != ps@[j as int]);
            }
            return false;
        }
        j += 1;
    }
    proof {
        assert(cs@.subrange(i as int, i + ps@.len()) =~~= ps@);
    }
    true
}

/// Replaces every occurrence of `pat` in `s` by `rep`, scanning left to
/// right without overlap.
#[verifier::loop_isolation(false)]
#[verifier::rlimit(100)]
pub fn exec_replace_all(s: &str, pat: &str, rep: &str) -> (r: String)
    requires
        pat@.len() > 0,
    ensures
        r@ == replace_all(s@, pat@, rep@),
{
    let cs = crate::text::chars_of(s);
    let ps = crate::text::chars_of(pat);
    let rs = crate::text::chars_of(rep);
    let mut out: Vec<char> = Vec::new();
    let mut i: usize = 0;
    proof {
        assert(s@.skip(0) =~~= s@);
        assert(out@ + replace_all(s@.skip(0), pat@, rep@) =~~= replace_all(s@, pat@, rep@));
    }
    while i < cs.len()
        invariant
            i <= cs@.len(),
            cs@ == s@,
            ps@ == pat@,
            rs@ == rep@,
            replace_all(s@, pat@, rep@) == out@ + replace_all(s@.skip(i as int), pat@, rep@),
        decreases cs@.len() - i,
    {
        let matches_here = if pat.unicode_len() <= cs.len() - i {
            is_prefix_at(&cs, &ps, i)
        } else {
            false
        };
        proof {
            if matches_here {
                assert(s@.skip(i as int).take(pat@.len() as int) =~~= cs@.subrange(
                    i as int,
                    i + ps@.len(),
                ));
            } else {
                if pat@.len() <= s@.len() - i {
                    assert(s@.skip(i as int).take(pat@.len() as int) =~~= cs@.subrange(
                        i as int,
                        i + ps@.len(),
                    ));
                }
            }
        }
        if matches_here {
            let ghost before = out@;
            let mut k: usize = 0;
            while k < rs.len()
                invariant
                    k <= rs@.len(),
                    out@ == before + rs@.take(k as int),
                decreases rs@.len() - k,
            {
                out.push(rs[k]);
                proof {
                    assert(out@ =~~= before + rs@.take(k + 1));
                }
                k += 1;
            }
            proof {
                assert(rs@.take(rs@.len() as int) =~~= rep@);
                assert(s@.skip(i as int).skip(pat@.len() as int) =~~= s@.skip(
                    i + pat@.len(),
                ));
                assert(replace_all(s@.skip(i as int), pat@, rep@) == rep@ + replace_all(
                    s@.skip(i + pat@.len()),
                    pat@,
                    rep@,
                ));
                assert(out@ + replace_all(s@.skip(i + pat@.len()), pat@, rep@) =~~= (before
                    + rep@) + replace_all(s@.skip(i + pat@.len()), pat@, rep@));
            }
            i += pat.unicode_len();
        } else {
            let ghost before = out@;
            out.push(cs[i]);
            proof {
                assert(out@ =~~= before.push(s@[i as int]));
                assert(s@.skip(i as int)[0] == s@[i as int]);
                assert(s@.skip(i as int).drop_first() =~~= s@.skip(i + 1));
                assert(replace_all(s@.skip(i as int), pat@, rep@) == seq![s@[i as int]]
                    + replace_all(s@.skip(i + 1), pat@, rep@));
                assert(out@ + replace_all(s@.skip(i + 1), pat@, rep@) =~~= before + (seq![
                    s@[i as int],
                ] + replace_all(s@.skip(i + 1), pat@, rep@)));
            }
            i += 1;
        }
    }
    proof {
        assert(s@.skip(i as int).len() == 0);
        assert(replace_all(s@.skip(i as int), pat@, rep@) =~~= Seq::<char>::empty());
        assert(out@ + Seq::<char>::empty() =~~= out@);
    }
    crate::text::string_of_chars(&out)
}

/// The fitness-function text with every binding of `bindings` substituted,
/// in binding order.
#[verifier::loop_isolation(false)]
pub fn substitute_bindings(fitness_function: &str, bindings: &Bindings) -> (r: String)
    ensures
        r@ == subst_fold(fitness_function@, bindings@),
{
    let mut ff = String::from_str(fitness_function);
    let n = bindings.len();
    let mut i: usize = 0;
    proof {
        assert(bindings@.skip(0) =~~= bindings@);
    }
    while i < n
        invariant
            i <= n,
            n == bindings@.len(),
            subst_fold(fitness_function@, bindings@) == subst_fold(
                ff@,
                bindings@.skip(i as int),
            ),
        decreases n - i,
    {
        proof {
            assert(bindings@.skip(i as int)[0] == bindings@[i as int]);
            assert(bindings@.skip(i as int).drop_first() =~~= bindings@.skip(i + 1));
        }
        let name = bindings.name_at(i);
        let pat = str_concat("$", name.as_str());
        let value_text = bindings.atom_at(i).to_text();
        proof {
            reveal_strlit("$");
            assert("$"@ =~~= seq!['$']);
            assert(pat@ == seq!['$'] + bindings@[i as int].0);
        }
        ff = exec_replace_all(ff.as_str(), pat.as_str(), value_text.as_str());
        i += 1;
    }
    proof {
        assert(bindings@.skip(i as int).len() == 0);
    }
    ff
}

/// The non-marker candidates of an evolution queue: every queued token that
/// is not the `eval_fitness` framing marker.
pub open spec fn non_marker(q: Seq<String>) -> Seq<String> {
    q.filter(|s: String| s@ != EVAL_FITNESS@)
}

/// Drains the candidate queue, returning its non-marker tokens in order.
#[verifier::loop_isolation(false)]
pub fn take_fitness_candidates(base: &mut BaseQueryProxy) -> (r: Vec<String>)
    ensures
        final(base).eval_fitness_queue@.len() == 0,
        r@ == non_marker(old(base).eval_fitness_queue@),
        *final(base) == (BaseQueryProxy {
            eval_fitness_queue: final(base).eval_fitness_queue,
            ..*old(base)
        }),
{
    let ghost q0 = base.eval_fitness_queue@;
    let mut out: Vec<String> = Vec::new();
    proof {
        assert(q0.take(0) =~~= Seq::<String>::empty());
        reveal_with_fuel(Seq::<String>::filter, 2);
        assert(out@ =~~= non_marker(q0.take(0)));
    }
    let ghost mut done: int = 0;
    loop
        invariant
            0 <= done <= q0.len(),
            base.eval_fitness_queue@ == q0.skip(done),
            out@ == non_marker(q0.take(done)),
            *base == (BaseQueryProxy { eval_fitness_queue: base.eval_fitness_queue, ..*old(base) }),
        decreases q0.len() - done,
    {
        let next = base.eval_fitness_queue.pop_front();
        match next {
            Some(tok) => {
                proof {
                    assert(q0.skip(done)[0] == q0[done]);
                    assert(q0.skip(done).drop_first() =~~= q0.skip(done + 1));
                    assert(q0.take(done + 1) =~~= q0.take(done) + seq![q0[done]]);
                    Seq::<String>::filter_distributes_over_add(
                        q0.take(done),
                        seq![q0[done]],
                        |s: String| s@ != EVAL_FITNESS@,
                    );
                    reveal_with_fuel(Seq::<String>::filter, 2);
                    assert(seq![q0[done]].filter(|s: String| s@ != EVAL_FITNESS@) =~~= (
                    if q0[done]@ != EVAL_FITNESS@ {
                        seq![q0[done]]
                    } else {
                        Seq::<String>::empty()
                    }));
                }
                if !crate::text::str_eq(tok.as_str(), EVAL_FITNESS) {
                    let ghost before = out@;
                    out.push(tok);
                    proof {
                        assert(out@ =~~= before.push(q0[done]));
                        assert(out@ =~~= non_marker(q0.take(done + 1)));
                    }
                } else {
                    proof {
                        assert(out@ =~~= non_marker(q0.take(done + 1)));
                    }
                }
                proof {
                    done = done + 1;
                }
            },
            None => {
                proof {
                    assert(q0.skip(done).len() == 0);
                    assert(done == q0.len());
                    assert(q0.take(done) =~~= q0);
                }
                break ;
            },
        }
    }
    out
}

/// The candidate expressions to hand the interpreter: each candidate parsed
/// as a query answer, its bindings substituted into the fitness function,
/// and the result prefixed with the evaluation sigil.  `None` when some
/// candidate does not parse.
pub open spec fn candidate_exprs(cands: Seq<String>, ff: Seq<char>) -> Option<Seq<Seq<char>>>
    decreases cands.len(),
{
    if cands.len() == 0 {
        Some(Seq::empty())
    } else {
        match parse_answer(cands[0]@) {
            None => None,
            Some(v) => {
                let b = answer_bindings(Seq::empty(), v.assignment, v.metta, true);
                match candidate_exprs(cands.drop_first(), ff) {
                    None => None,
                    Some(rest) => Some(seq![seq!['!'] + subst_fold(ff, b)] + rest),
                }
            },
        }
    }
}

/// Drains the proxy's candidate queue and prepares one expression per
/// candidate: the candidate's bindings substituted into the fitness
/// function, prefixed with the evaluation sigil.  An error reports a
/// candidate that does not parse as a query answer; the queue is drained
/// either way.
#[verifier::loop_isolation(false)]
pub fn eval_fitness_candidates(proxy: &mut QueryEvolutionProxy) -> (r: Result<Vec<String>, String>)
    ensures
        final(proxy).base.eval_fitness_queue@.len() == 0,
        final(proxy).base == (BaseQueryProxy {
            eval_fitness_queue: final(proxy).base.eval_fitness_queue,
            ..old(proxy).base
        }),
        final(proxy).fitness_function == old(proxy).fitness_function,
        r is Ok <==> candidate_exprs(
            non_marker(old(proxy).base.eval_fitness_queue@),
            old(proxy).fitness_function@,
        ) is Some,
        r matches Ok(v) ==> Some(v.deep_view()) == candidate_exprs(
            non_marker(old(proxy).base.eval_fitness_queue@),
            old(proxy).fitness_function@,
        ),
{
    let candidates = take_fitness_candidates(&mut proxy.base);
    let ghost cands = candidates@;
    let ghost ff = proxy.fitness_function@;
    let mut out: Vec<String> = Vec::new();
    let mut i: usize = 0;
    proof {
        assert(cands.skip(0) =~~= cands);
    }
    while i < candidates.len()
        invariant
            i <= cands.len(),
            cands == candidates@,
            ff == proxy.fitness_function@,
            candidate_exprs(cands, ff) matches Some(full) ==> (candidate_exprs(
                cands.skip(i as int),
                ff,
            ) matches Some(rest) && full == out.deep_view() + rest),
            candidate_exprs(cands, ff) is None <==> candidate_exprs(cands.skip(i as int), ff)
                is None,
        decreases cands.len() - i,
    {
        proof {
            assert(cands.skip(i as int)[0] == cands[i as int]);
            assert(cands.skip(i as int).drop_first() =~~= cands.skip(i + 1));
        }
        let b = match parse_query_answer(candidates[i].as_str(), true) {
            Ok(b) => b,
            Err(e) => {
                return Err(e);
            },
        };
        let substituted = substitute_bindings(proxy.fitness_function.as_str(), &b);
        let expr = str_concat("!", substituted.as_str());
        let ghost ev = expr@;
        proof {
            reveal_strlit("!");
            assert("!"@ =~~= seq!['!']);
        }
        let ghost before = out.deep_view();
        out.push(expr);
        proof {
            assert(out.deep_view() =~~= before.push(ev));
            if candidate_exprs(cands.skip(i + 1), ff) is Some {
                let rest2 = candidate_exprs(cands.skip(i + 1), ff)->Some_0;
                assert(before + (seq![ev] + rest2) =~~= before.push(ev) + rest2);
            }
        }
        i += 1;
    }
    proof {
        assert(cands.skip(i as int).len() == 0);
        assert(candidate_exprs(cands.skip(i as int), ff) == Some(Seq::<Seq<char>>::empty()));
        assert(out.deep_view() + Seq::<Seq<char>>::empty() =~~= out.deep_view());
    }
    Ok(out)
}

/// The frame that returns the computed fitness scores to the remote peer,
/// or nothing when no scores were produced.
pub fn eval_fitness_response(base: &BaseQueryProxy, fitness_bundle: Vec<String>) -> (r: Option<
    MessageData,
>)
    ensures
        fitness_bundle@.len() == 0 ==> r is None,
        fitness_bundle@.len() > 0 ==> (r matches Some(frame) && {
            &&& frame.command@ == crate::proxy::BUS_COMMAND_PROXY@
            &&& frame.args.deep_view() == fitness_bundle.deep_view().push(EVAL_FITNESS_RESPONSE@)
            &&& frame.sender@ == base.proxy_node.node_id@
            &&& !frame.is_broadcast
        }),
{
    if fitness_bundle.len() == 0 {
        None
    } else {
        Some(base.to_remote_peer(String::from_str(EVAL_FITNESS_RESPONSE), fitness_bundle))
    }
}

/// The correlation queries an atom stands for: one single-token query per
/// child, the token being the child's text.
pub open spec fn cq_of(children: Seq<AtomView>) -> Seq<Seq<Seq<char>>> {
    children.map_values(|v: AtomView| seq![atom_text(v)])
}

/// The replacement maps an atom stands for: each child an expression of
/// exactly two atoms, read as one key/variable pair.
pub open spec fn repl_of(ds: Seq<AtomView>) -> Option<Seq<Seq<(Seq<char>, ElementView)>>>
    decreases ds.len(),
{
    if ds.len() == 0 {
        Some(Seq::empty())
    } else {
        match ds[0] {
            AtomView::Expression(p) => if p.len() == 2 {
                match repl_of(ds.drop_first()) {
                    Some(rest) => Some(
                        seq![
                            seq![
                                (atom_text(p[0]), ElementView::Variable(atom_text(p[1]))),
                            ],
                        ] + rest,
                    ),
                    None => None,
                }
            } else {
                None
            },
            _ => None,
        }
    }
}

/// The correlation mappings an atom stands for: each child an expression of
/// exactly two atoms, read as a pair of variables named by their texts.
pub open spec fn map_of(ds: Seq<AtomView>) -> Option<Seq<(ElementView, ElementView)>>
    decreases ds.len(),
{
    if ds.len() == 0 {
        Some(Seq::empty())
    } else {
        match ds[0] {
            AtomView::Expression(p) => if p.len() == 2 {
                match map_of(ds.drop_first()) {
                    Some(rest) => Some(
                        seq![
                            (
                                ElementView::Variable(atom_text(p[0])),
                                ElementView::Variable(atom_text(p[1])),
                            ),
                        ] + rest,
                    ),
                    None => None,
                }
            } else {
                None
            },
            _ => None,
        }
    }
}

/// Whether an atom parses as evolution parameters, and to what: the query,
/// the fitness-function text, the correlation queries, replacements and
/// mappings.
pub open spec fn evolution_params_of(v: AtomView) -> Option<
    (
        AtomView,
        Seq<char>,
        Seq<Seq<Seq<char>>>,
        Seq<Seq<(Seq<char>, ElementView)>>,
        Seq<(ElementView, ElementView)>,
    ),
> {
    match v {
        AtomView::Expression(children) => if children.len() >= 5 {
            match (children[2], children[3], children[4]) {
                (
                    AtomView::Expression(qs),
                    AtomView::Expression(rs),
                    AtomView::Expression(ms),
                ) => {
                    match (repl_of(rs), map_of(ms)) {
                        (Some(repl), Some(maps)) => Some(
                            (children[0], atom_text(children[1]), cq_of(qs), repl, maps),
                        ),
                        _ => None,
                    }
                },
                _ => None,
            }
        } else {
            None
        },
        _ => None,
    }
}

/// Reads evolution parameters out of a request atom: the query, the fitness
/// function, and the correlation queries, replacements and mappings.  An
/// error reports any other shape.
#[verifier::loop_isolation(false)]
#[verifier::rlimit(30)]
pub fn parse_evolution_parameters(atom: &Atom) -> (r: Result<QueryEvolutionParams, String>)
    ensures
        r is Ok <==> evolution_params_of(atom_view(atom)) is Some,
        r matches Ok(p) ==> {
            &&& evolution_params_of(atom_view(atom)) matches Some(t)
            &&& atom_view(&p.query_atom) == t.0
            &&& p.fitness_function@ == t.1
            &&& p.correlation_queries.deep_view() == t.2
            &&& repl_view(p.correlation_replacements@) == t.3
            &&& det_view(p.correlation_mappings@) == t.4
        },
{
    let err = "EVOLUTION query must have ((query) (fitness function) (correlation queries) (correlation replacements) (correlation mappings))";
    let children = match atom {
        Atom::Expression(children) => children,
        _ => {
            return Err(String::from_str(err));
        },
    };
    proof {
        crate::atoms::lemma_atoms_view(children@);
    }
    if children.len() < 5 {
        return Err(String::from_str(err));
    }
    let query_atom = children[0].clone_atom();
    let fitness_function = children[1].to_text();
    let cq_children = match &children[2] {
        Atom::Expression(qs) => qs,
        _ => {
            return Err(String::from_str(err));
        },
    };
    let repl_children = match &children[3] {
        Atom::Expression(rs) => rs,
        _ => {
            return Err(String::from_str(err));
        },
    };
    let map_children = match &children[4] {
        Atom::Expression(ms) => ms,
        _ => {
            return Err(String::from_str(err));
        },
    };
    proof {
        crate::atoms::lemma_atoms_view(cq_children@);
        crate::atoms::lemma_atoms_view(repl_children@);
        crate::atoms::lemma_atoms_view(map_children@);
    }
    let ghost qv = atoms_view(cq_children@);
    let ghost rv = atoms_view(repl_children@);
    let ghost mv = atoms_view(map_children@);

    let mut correlation_queries: Vec<Vec<String>> = Vec::new();
    let mut i: usize = 0;
    proof {
        assert(correlation_queries.deep_view() =~~= cq_of(qv).take(0));
    }
    while i < cq_children.len()
        invariant
            i <= cq_children@.len(),
            qv.len() == cq_children@.len(),
            forall|k: int| 0 <= k < qv.len() ==> qv[k] == atom_view(&cq_children@[k]),
            correlation_queries.deep_view() == cq_of(qv).take(i as int),
        decreases cq_children@.len() - i,
    {
        let ghost before = correlation_queries.deep_view();
        let mut one: Vec<String> = Vec::new();
        let t = cq_children[i].to_text();
        let ghost tv = t@;
        one.push(t);
        proof {
            assert(one.deep_view() =~~= seq![tv]);
            assert(cq_of(qv)[i as int] == seq![atom_text(qv[i as int])]);
        }
        correlation_queries.push(one);
        proof {
            assert(correlation_queries.deep_view() =~~= before.push(seq![tv]));
            assert(correlation_queries.deep_view() =~~= cq_of(qv).take(i + 1));
        }
        i += 1;
    }
    proof {
        assert(cq_of(qv).take(i as int) =~~= cq_of(qv));
    }

    let mut correlation_replacements: Vec<Vec<(String, QueryElement)>> = Vec::new();
    let mut i: usize = 0;
    proof {
        assert(rv.skip(0) =~~= rv);
    }
    while i < repl_children.len()
        invariant
            i <= repl_children@.len(),
            rv.len() == repl_children@.len(),
            forall|k: int| 0 <= k < rv.len() ==> rv[k] == atom_view(&repl_children@[k]),
            repl_of(rv) matches Some(full) ==> (repl_of(rv.skip(i as int)) matches Some(rest)
                && full == repl_view(correlation_replacements@) + rest),
            repl_of(rv) is None <==> repl_of(rv.skip(i as int)) is None,
        decreases repl_children@.len() - i,
    {
        proof {
            assert(rv.skip(i as int)[0] == rv[i as int]);
            assert(rv.skip(i as int).drop_first() =~~= rv.skip(i + 1));
        }
        let pair_children = match &repl_children[i] {
            Atom::Expression(p) => p,
            _ => {
                return Err(String::from_str(err));
            },
        };
        proof {
            crate::atoms::lemma_atoms_view(pair_children@);
        }
        if pair_children.len() != 2 {
            return Err(String::from_str(err));
        }
        let key = pair_children[0].to_text();
        let value = QueryElement::new_variable(pair_children[1].to_text().as_str());
        let ghost kv = key@;
        let ghost vv = element_view(&value);
        let mut one: Vec<(String, QueryElement)> = Vec::new();
        one.push((key, value));
        let ghost entry = one@.map_values(
            |p: (String, QueryElement)| (p.0@, element_view(&p.1)),
        );
        proof {
            assert(entry =~~= seq![(kv, vv)]);
        }
        let ghost before = repl_view(correlation_replacements@);
        correlation_replacements.push(one);
        proof {
            assert(repl_view(correlation_replacements@) =~~= before.push(entry));
            if repl_of(rv.skip(i + 1)) is Some {
                let rest2 = repl_of(rv.skip(i + 1))->Some_0;
                assert(before + (seq![entry] + rest2) =~~= before.push(entry) + rest2);
            }
        }
        i += 1;
    }
    proof {
        assert(rv.skip(i as int).len() == 0);
        assert(repl_of(rv.skip(i as int)) == Some(Seq::<Seq<(Seq<char>, ElementView)>>::empty()));
        assert(repl_view(correlation_replacements@) + Seq::<
            Seq<(Seq<char>, ElementView)>,
        >::empty() =~~= repl_view(correlation_replacements@));
    }

    let mut correlation_mappings: Vec<(QueryElement, QueryElement)> = Vec::new();
    let mut i: usize = 0;
    proof {
        assert(mv.skip(0) =~~= mv);
    }
    while i < map_children.len()
        invariant
            i <= map_children@.len(),
            mv.len() == map_children@.len(),
            forall|k: int| 0 <= k < mv.len() ==> mv[k] == atom_view(&map_children@[k]),
            map_of(mv) matches Some(full) ==> (map_of(mv.skip(i as int)) matches Some(rest)
                && full == det_view(correlation_mappings@) + rest),
            map_of(mv) is None <==> map_of(mv.skip(i as int)) is None,
        decreases map_children@.len() - i,
    {
        proof {
            assert(mv.skip(i as int)[0] == mv[i as int]);
            assert(mv.skip(i as int).drop_first() =~~= mv.skip(i + 1));
        }
        let pair_children = match &map_children[i] {
            Atom::Expression(p) => p,
            _ => {
                return Err(String::from_str(err));
            },
        };
        proof {
            crate::atoms::lemma_atoms_view(pair_children@);
        }
        if pair_children.len() != 2 {
            return Err(String::from_str(err));
        }
        let a = QueryElement::new_variable(pair_children[0].to_text().as_str());
        let b = QueryElement::new_variable(pair_children[1].to_text().as_str());
        let ghost av = element_view(&a);
        let ghost bv = element_view(&b);
        let ghost before = det_view(correlation_mappings@);
        correlation_mappings.push((a, b));
        proof {
            assert(det_view(correlation_mappings@) =~~= before.push((av, bv)));
            if map_of(mv.skip(i + 1)) is Some {
                let rest2 = map_of(mv.skip(i + 1))->Some_0;
                assert(before + (seq![(av, bv)] + rest2) =~~= before.push((av, bv)) + rest2);
            }
        }
        i += 1;
    }
    proof {
        assert(mv.skip(i as int).len() == 0);
        assert(map_of(mv.skip(i as int)) == Some(Seq::<(ElementView, ElementView)>::empty()));
        assert(det_view(correlation_mappings@) + Seq::<(ElementView, ElementView)>::empty()
            =~~= det_view(correlation_mappings@));
    }
    Ok(
        QueryEvolutionParams {
            query_atom,
            correlation_queries,
            correlation_replacements,
            correlation_mappings,
            fitness_function,
        },
    )
}

} // verus!
