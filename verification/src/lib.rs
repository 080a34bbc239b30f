//! Client-side runtime of a distributed query bus for a symbolic atom space.
//!
//! A requestor process issues long-running queries (pattern matching,
//! evolution, inference, link creation, context creation) over a network of
//! peer nodes connected in a star topology.  This crate holds the verified
//! core: the port pool, the command registry, the property and query-answer
//! codecs, the per-query proxy state machine, the star-node message
//! dispatcher and the command encoders.  Network transport and the async
//! executor live outside the library and exchange plain values with it.

use vstd::prelude::*;

pub mod assoc;
pub mod atoms;
pub mod bindings;
pub mod bus;
pub mod bus_node;
pub mod context_broker;
pub mod codec;
pub mod helpers;
pub mod inference;
pub mod link_creation;
pub mod pattern_matching;
pub mod port_pool;
pub mod properties;
pub mod proxy;
pub mod proxy_trait;
pub mod query_element;
pub mod service_bus;
pub mod service_bus_singleton;
pub mod query_evolution;
pub mod star_node;
pub mod text;

verus! {

/// The immutable parameters of one query: its tokens, its free variables,
/// the context it runs under (name and hashed key), and the property map.
#[derive(Debug)]
pub struct QueryParams {
    pub tokens: Vec<String>,
    pub variables: Vec<String>,
    pub context_name: String,
    pub context_key: String,
    pub properties: properties::Properties,
}


/// A query handed to the bus: raw token text, or an atom.
pub enum QueryType {
    Text(String),
    Atom(atoms::Atom),
}

/// The variable names an atom binds anywhere in its tree.
pub open spec fn atom_var_set(v: atoms::AtomView) -> Set<Seq<char>>
    decreases v,
{
    match v {
        atoms::AtomView::Variable(n) => Set::empty().insert(n),
        atoms::AtomView::Expression(children) => seq_var_set(children),
        _ => Set::empty(),
    }
}

/// The variable names bound anywhere in a run of atoms.
pub open spec fn seq_var_set(s: Seq<atoms::AtomView>) -> Set<Seq<char>>
    decreases s,
{
    if s.len() == 0 {
        Set::empty()
    } else {
        atom_var_set(s[0]) + seq_var_set(s.drop_first())
    }
}

/// Collects into `acc` every variable name of `atom` not already there.
#[verifier::loop_isolation(false)]
fn collect_vars(atom: &atoms::Atom, acc: &mut Vec<String>)
    requires
        forall|a: int, b: int|
            0 <= a < b < old(acc).deep_view().len() ==> old(acc).deep_view()[a]
                != old(acc).deep_view()[b],
    ensures
        forall|v: Seq<char>|
            final(acc).deep_view().contains(v) <==> (old(acc).deep_view().contains(v)
                || atom_var_set(atoms::atom_view(atom)).contains(v)),
        forall|a: int, b: int|
            0 <= a < b < final(acc).deep_view().len() ==> final(acc).deep_view()[a]
                != final(acc).deep_view()[b],
    decreases atom,
{
    match atom {
        atoms::Atom::Variable(n) => {
            if !helpers::contains_name(acc, n.as_str()) {
                let ghost before = acc.deep_view();
                let ghost nv = n@;
                acc.push(n.clone());
                proof {
                    assert(acc.deep_view() =~~= before.push(nv));
                    assert(acc.deep_view()[before.len() as int] == nv);
                    assert forall|v: Seq<char>|
                        acc.deep_view().contains(v) <==> (before.contains(v) || atom_var_set(
                            atoms::atom_view(atom),
                        ).contains(v)) by {
                        if acc.deep_view().contains(v) {
                            let k = choose|k: int|
                                0 <= k < acc.deep_view().len() && acc.deep_view()[k] == v;
                            if k < before.len() {
                                assert(before[k] == v);
                            }
                        }
                        if before.contains(v) {
                            let k = choose|k: int| 0 <= k < before.len() && before[k] == v;
                            assert(acc.deep_view()[k] == v);
                        }
                    }
                }
            }
        },
        atoms::Atom::Expression(children) => {
            proof {
                atoms::lemma_atoms_view(children@);
            }
            let ghost cv = atoms::atoms_view(children@);
            let mut i: usize = 0;
            proof {
                assert(cv.skip(0) =~~= cv);
            }
            while i < children.len()
                invariant
                    i <= children@.len(),
                    cv.len() == children@.len(),
                    forall|k: int| 0 <= k < cv.len() ==> cv[k] == atoms::atom_view(&children@[k]),
                    forall|v: Seq<char>|
                        acc.deep_view().contains(v) <==> (old(acc).deep_view().contains(v)
                            || seq_var_set(cv.take(i as int)).contains(v)),
                    forall|a: int, b: int|
                        0 <= a < b < acc.deep_view().len() ==> acc.deep_view()[a]
                            != acc.deep_view()[b],
                decreases children@.len() - i,
            {
                proof {
                    assert(decreases_to!(atom => children@[i as int]));
                    lemma_seq_var_take(cv, i as int);
                }
                collect_vars(&children[i], acc);
                i += 1;
            }
            proof {
                assert(cv.take(i as int) =~~= cv);
            }
        },
        _ => {
            proof {
                assert(atom_var_set(atoms::atom_view(atom)) =~~= Set::<Seq<char>>::empty());
            }
        },
    }
}

/// One more child extends the collected variable set by that child's.
proof fn lemma_seq_var_take(s: Seq<atoms::AtomView>, i: int)
    requires
        0 <= i < s.len(),
    ensures
        seq_var_set(s.take(i + 1)) == seq_var_set(s.take(i)) + atom_var_set(s[i]),
    decreases i,
{
    if i == 0 {
        assert(s.take(1)[0] == s[0]);
        assert(s.take(1).drop_first() =~~= Seq::<atoms::AtomView>::empty());
        assert(s.take(0) =~~= Seq::<atoms::AtomView>::empty());
        assert(seq_var_set(s.take(1)) =~~= seq_var_set(s.take(0)) + atom_var_set(s[0]));
    } else {
        lemma_seq_var_take(s.drop_first(), i - 1);
        assert(s.take(i + 1)[0] == s[0]);
        assert(s.take(i)[0] == s[0]);
        assert(s.take(i + 1).drop_first() =~~= s.drop_first().take(i));
        assert(s.take(i).drop_first() =~~= s.drop_first().take(i - 1));
        assert(s.drop_first()[i - 1] == s[i]);
        assert(seq_var_set(s.take(i + 1)) =~~= seq_var_set(s.take(i)) + atom_var_set(s[i]));
    }
}

/// Whether `s` begins with the link-template opcode.
pub open spec fn starts_link_template(s: Seq<char>) -> bool {
    s.len() >= 13 && s.take(13) == "LINK_TEMPLATE"@
}

/// The variable names of a query, as its text or tree names them.
pub open spec fn query_vars(q: QueryType) -> Set<Seq<char>> {
    match q {
        QueryType::Text(s) => helpers::var_names(helpers::split_tokens(s@)),
        QueryType::Atom(a) => atom_var_set(atoms::atom_view(&a)),
    }
}

/// The text of a query.
pub open spec fn query_text(q: QueryType) -> Seq<char> {
    match q {
        QueryType::Text(s) => s@,
        QueryType::Atom(a) => atoms::atom_text(atoms::atom_view(&a)),
    }
}

/// Builds the parameters of one query: its free variables, the context name
/// and hashed key from the properties, and the query tokens.  A query whose
/// text begins with the link-template opcode is split into wire tokens and
/// marked as not using its text as one token; any other query travels as
/// one token.  An error reports a missing or non-string context property.
#[verifier::loop_isolation(false)]
pub fn extract_query_params(query: &QueryType, properties: properties::Properties) -> (r: Result<
    QueryParams,
    String,
>)
    ensures
        r is Ok <==> (assoc::lookup(properties@, properties::CONTEXT@) matches Some(
            properties::PropView::Text(_),
        )),
        r matches Ok(p) ==> {
            &&& (assoc::lookup(properties@, properties::CONTEXT@) matches Some(
                properties::PropView::Text(name),
            ) && p.context_name@ == name && p.context_key@ == context_broker::md5_hex(name))
            &&& (forall|v: Seq<char>|
                p.variables.deep_view().contains(v) <==> query_vars(*query).contains(v))
            &&& p.tokens.deep_view() == (if starts_link_template(query_text(*query)) {
                helpers::split_tokens(query_text(*query))
            } else {
                seq![query_text(*query)]
            })
            &&& p.properties@ == assoc::assoc_insert(
                properties@,
                properties::USE_METTA_AS_QUERY_TOKENS@,
                properties::PropView::Bool(!starts_link_template(query_text(*query))),
            )
        },
{
    let context_name = match properties.get_text(properties::CONTEXT) {
        Ok(s) => s,
        Err(e) => {
            return Err(e);
        },
    };
    let context_key = context_broker::hash_context(context_name.as_str());

    let mut variables: Vec<String> = Vec::new();
    match query {
        QueryType::Text(s) => {
            variables = helpers::map_variables(s.as_str());
        },
        QueryType::Atom(a) => {
            collect_vars(a, &mut variables);
        },
    }

    let query_tokens_str = match query {
        QueryType::Text(s) => s.clone(),
        QueryType::Atom(a) => a.to_text(),
    };

    let cs = text::chars_of(query_tokens_str.as_str());
    let ghost qt = query_text(*query);
    let mut is_link = cs.len() >= 13;
    proof {
        reveal_strlit("LINK_TEMPLATE");
        assert("LINK_TEMPLATE"@.len() == 13);
    }
    if is_link {
        let opcode = text::chars_of("LINK_TEMPLATE");
        let mut k: usize = 0;
        while k < 13 && is_link
            invariant
                k <= 13,
                cs@.len() >= 13,
                cs@ == qt,
                opcode@ == "LINK_TEMPLATE"@,
                opcode@.len() == 13,
                is_link ==> forall|j: int| 0 <= j < k ==> cs@[j] == opcode@[j],
                !is_link ==> !starts_link_template(qt),
            decreases 13 - k + (if is_link { 1int } else { 0 }),
        {
            if cs[k] != opcode[k] {
                is_link = false;
                proof {
                    assert(qt.take(13)[k as int] != "LINK_TEMPLATE"@[k as int]);
                    assert(!starts_link_template(qt));
                }
            } else {
                k += 1;
            }
        }
        proof {
            if is_link {
                assert(cs@.take(13) =~~= "LINK_TEMPLATE"@);
                assert(starts_link_template(qt));
            }
        }
    } else {
        proof {
            assert(!starts_link_template(qt));
        }
    }
    let mut tokens: Vec<String> = Vec::new();
    let use_metta_as_query_tokens: bool;
    if is_link {
        tokens = helpers::split_ignore_quoted(query_tokens_str.as_str());
        use_metta_as_query_tokens = false;
    } else {
        helpers::push_string(&mut tokens, query_tokens_str);
        use_metta_as_query_tokens = true;
        proof {
            assert(tokens.deep_view() =~~= seq![query_text(*query)]);
        }
    }

    let mut properties = properties;
    let ghost old_props_view = properties@;
    properties.insert(
        String::from_str(properties::USE_METTA_AS_QUERY_TOKENS),
        properties::PropertyValue::Bool(use_metta_as_query_tokens),
    );
    proof {
        assert(properties@ == assoc::assoc_insert(
            old_props_view,
            properties::USE_METTA_AS_QUERY_TOKENS@,
            properties::PropView::Bool(use_metta_as_query_tokens),
        ));
    }
    Ok(QueryParams { tokens, variables, context_name, context_key, properties })
}

/// The endpoint an atom names: the text with parentheses removed, split as
/// `host:port` or `host:lower-upper`.
pub open spec fn endpoint_of(t: Seq<char>) -> Option<(Seq<char>, int, int)> {
    let i = proxy::idx_of(t, ':', 0);
    if i >= t.len() {
        None
    } else {
        let pr = t.subrange(i + 1, t.len() as int);
        let d = proxy::idx_of(pr, '-', 0);
        if d < pr.len() {
            let lo = pr.take(d);
            let hi = pr.subrange(d + 1, pr.len() as int);
            if text::is_u64_text(lo) && text::u64_text_val(lo) <= u16::MAX && text::is_u64_text(hi)
                && text::u64_text_val(hi) <= u16::MAX {
                Some((t.take(i), text::u64_text_val(lo), text::u64_text_val(hi)))
            } else {
                None
            }
        } else {
            if text::is_u64_text(pr) && text::u64_text_val(pr) <= u16::MAX {
                Some((t, text::u64_text_val(pr), text::u64_text_val(pr)))
            } else {
                None
            }
        }
    }
}

/// The stripped text of an endpoint atom: its text with parentheses
/// removed.
pub open spec fn endpoint_text(v: atoms::AtomView) -> Seq<char> {
    atoms::atom_text(v).filter(|c: char| c != '(' && c != ')')
}

/// Reads a `host:port` or `host:lower-upper` endpoint out of an atom.  With
/// a single port both bounds are that port and the host keeps the port
/// text, as the caller then passes the identity through whole.  An error
/// reports a missing colon or a non-numeric port.
#[verifier::loop_isolation(false)]
pub fn host_id_from_atom(atom: &atoms::Atom) -> (r: Result<(String, u16, u16), String>)
    ensures
        r is Ok <==> endpoint_of(endpoint_text(atoms::atom_view(atom))) is Some,
        r matches Ok(t) ==> {
            &&& endpoint_of(endpoint_text(atoms::atom_view(atom))) matches Some(e)
            &&& t.0@ == e.0
            &&& t.1 == e.1
            &&& t.2 == e.2
        },
{
    let err = "endpoint must be host:port or host:lower-upper";
    let text_full = atom.to_text();
    let cs0 = text::chars_of(text_full.as_str());
    let mut stripped: Vec<char> = Vec::new();
    let mut i: usize = 0;
    proof {
        let p = |c: char| c != '(' && c != ')';
        assert(text_full@.take(0) =~~= Seq::<char>::empty());
        assert(stripped@ =~~= text_full@.take(0).filter(p));
    }
    while i < cs0.len()
        invariant
            i <= cs0@.len(),
            cs0@ == text_full@,
            stripped@ == text_full@.take(i as int).filter(|c: char| c != '(' && c != ')'),
        decreases cs0@.len() - i,
    {
        let c = cs0[i];
        proof {
            let p = |c: char| c != '(' && c != ')';
            assert(text_full@.take(i + 1) =~~= text_full@.take(i as int) + seq![
                text_full@[i as int],
            ]);
            Seq::<char>::filter_distributes_over_add(
                text_full@.take(i as int),
                seq![text_full@[i as int]],
                p,
            );
            reveal_with_fuel(Seq::<char>::filter, 2);
            assert(seq![text_full@[i as int]].filter(p) =~~= if p(text_full@[i as int]) {
                seq![text_full@[i as int]]
            } else {
                Seq::<char>::empty()
            });
        }
        if c != '(' && c != ')' {
            stripped.push(c);
        }
        i += 1;
    }
    proof {
        assert(text_full@.take(i as int) =~~= text_full@);
    }
    let ghost t = stripped@;
    let colon = proxy::find_char(&stripped, ':', 0);
    if colon >= stripped.len() {
        return Err(String::from_str(err));
    }
    let mut pr: Vec<char> = Vec::new();
    let mut k: usize = colon + 1;
    proof {
        assert(pr@ =~~= t.subrange(colon + 1, colon + 1));
    }
    while k < stripped.len()
        invariant
            colon + 1 <= k <= t.len(),
            t == stripped@,
            pr@ == t.subrange(colon + 1, k as int),
        decreases t.len() - k,
    {
        pr.push(stripped[k]);
        proof {
            assert(pr@ =~~= t.subrange(colon + 1, k + 1));
        }
        k += 1;
    }
    let dash = proxy::find_char(&pr, '-', 0);
    if dash < pr.len() {
        let mut lo: Vec<char> = Vec::new();
        let mut m: usize = 0;
        proof {
            assert(lo@ =~~= pr@.take(0));
        }
        while m < dash
            invariant
                m <= dash <= pr@.len(),
                lo@ == pr@.take(m as int),
            decreases dash - m,
        {
            lo.push(pr[m]);
            proof {
                assert(lo@ =~~= pr@.take(m + 1));
            }
            m += 1;
        }
        let mut hi: Vec<char> = Vec::new();
        let mut m: usize = dash + 1;
        proof {
            assert(hi@ =~~= pr@.subrange(dash + 1, dash + 1));
        }
        while m < pr.len()
            invariant
                dash + 1 <= m <= pr@.len(),
                hi@ == pr@.subrange(dash + 1, m as int),
            decreases pr@.len() - m,
        {
            hi.push(pr[m]);
            proof {
                assert(hi@ =~~= pr@.subrange(dash + 1, m + 1));
            }
            m += 1;
        }
        let lo_v = match text::parse_u64(&lo) {
            Some(v) => v,
            None => {
                return Err(String::from_str(err));
            },
        };
        let hi_v = match text::parse_u64(&hi) {
            Some(v) => v,
            None => {
                return Err(String::from_str(err));
            },
        };
        if lo_v > u16::MAX as u64 || hi_v > u16::MAX as u64 {
            return Err(String::from_str(err));
        }
        let mut host: Vec<char> = Vec::new();
        let mut m: usize = 0;
        proof {
            assert(host@ =~~= t.take(0));
        }
        while m < colon
            invariant
                m <= colon <= t.len(),
                t == stripped@,
                host@ == t.take(m as int),
            decreases colon - m,
        {
            host.push(stripped[m]);
            proof {
                assert(host@ =~~= t.take(m + 1));
            }
            m += 1;
        }
        Ok((text::string_of_chars(&host), lo_v as u16, hi_v as u16))
    } else {
        let port = match text::parse_u64(&pr) {
            Some(v) => v,
            None => {
                return Err(String::from_str(err));
            },
        };
        if port > u16::MAX as u64 {
            return Err(String::from_str(err));
        }
        Ok((text::string_of_chars(&stripped), port as u16, port as u16))
    }
}

/// Initializes the process-wide service bus and reports the outcome.  An
/// error reports an empty port range.
pub fn init_service_bus(
    singleton: &mut service_bus_singleton::ServiceBusSingleton,
    host_id: String,
    known_peer: String,
    port_lower: u16,
    port_upper: u16,
) -> (r: Result<(), String>)
    ensures
        r is Ok <==> port_lower <= port_upper,
        r is Ok ==> (final(singleton).instance_view() matches Some(sb)
            && service_bus_singleton::standard_bus(
            sb,
            host_id@,
            known_peer@,
            port_lower,
            port_upper,
        )),
        r is Err ==> *final(singleton) == *old(singleton),
{
    singleton.init(host_id, known_peer, port_lower, port_upper)
}

/// What one turn of a drain loop did.
#[derive(Debug, PartialEq, Eq, Structural)]
pub enum DrainStep {
    /// One answer was parsed and collected.
    Collected,
    /// The queue was momentarily empty; the caller waits and retries.
    Empty,
    /// The query is finished; the loop ends.
    Finished,
    /// The answer cap was reached; the loop ends.
    LimitReached,
}

/// One turn of the pattern-matching drain loop: ends when the proxy is
/// finished; otherwise pops one answer, parses it, narrows its bindings to
/// the query's variables and collects them, ending early when the answer
/// cap is reached.  An error reports an answer that does not parse; the
/// answer is consumed.
pub fn pattern_matching_step(
    base: &mut proxy::BaseQueryProxy,
    variables: &Vec<String>,
    populate_metta_mapping: bool,
    max_answers: u64,
    bindings_set: &mut bindings::BindingsSet,
) -> (r: Result<DrainStep, String>)
    ensures
        old(base).spec_finished() ==> (r == Ok::<DrainStep, String>(DrainStep::Finished)
            && *final(base) == *old(base) && *final(bindings_set) == *old(bindings_set)),
        !old(base).spec_finished() && old(base).answer_queue@.len() == 0 ==> (r == Ok::<
            DrainStep,
            String,
        >(DrainStep::Empty) && *final(base) == *old(base) && *final(bindings_set)
            == *old(bindings_set)),
        !old(base).spec_finished() && old(base).answer_queue@.len() > 0 && !old(base).count_flag
            ==> {
            &&& final(base).answer_queue@ == old(base).answer_queue@.drop_first()
            &&& (match codec::parse_answer(old(base).answer_queue@[0]@) {
                None => r is Err && *final(bindings_set) == *old(bindings_set),
                Some(v) => {
                    let b = bindings::narrowed(
                        codec::answer_bindings(
                            Seq::empty(),
                            v.assignment,
                            v.metta,
                            populate_metta_mapping,
                        ),
                        variables.deep_view(),
                    );
                    &&& final(bindings_set)@ == old(bindings_set)@.push(b)
                    &&& r == Ok::<DrainStep, String>(
                        if max_answers > 0 && old(bindings_set)@.len() + 1 >= max_answers {
                            DrainStep::LimitReached
                        } else {
                            DrainStep::Collected
                        },
                    )
                },
            })
        },
        old(base).wf() ==> final(base).wf(),
{
    if base.finished() {
        return Ok(DrainStep::Finished);
    }
    match base.pop() {
        Some(query_answer) => {
            let b = match codec::parse_query_answer(
                query_answer.as_str(),
                populate_metta_mapping,
            ) {
                Ok(b) => b,
                Err(e) => {
                    return Err(e);
                },
            };
            let nb = b.narrow_vars(variables);
            bindings_set.push(nb);
            if max_answers > 0 && bindings_set.len() as u64 >= max_answers {
                Ok(DrainStep::LimitReached)
            } else {
                Ok(DrainStep::Collected)
            }
        },
        None => Ok(DrainStep::Empty),
    }
}

/// One turn of the evolution drain loop: like the pattern-matching turn,
/// but the bindings are collected whole, without narrowing.
pub fn evolution_collect_step(
    base: &mut proxy::BaseQueryProxy,
    populate_metta_mapping: bool,
    max_answers: u64,
    bindings_set: &mut bindings::BindingsSet,
) -> (r: Result<DrainStep, String>)
    ensures
        old(base).spec_finished() ==> (r == Ok::<DrainStep, String>(DrainStep::Finished)
            && *final(base) == *old(base) && *final(bindings_set) == *old(bindings_set)),
        !old(base).spec_finished() && old(base).answer_queue@.len() == 0 ==> (r == Ok::<
            DrainStep,
            String,
        >(DrainStep::Empty) && *final(base) == *old(base) && *final(bindings_set)
            == *old(bindings_set)),
        !old(base).spec_finished() && old(base).answer_queue@.len() > 0 && !old(base).count_flag
            ==> {
            &&& final(base).answer_queue@ == old(base).answer_queue@.drop_first()
            &&& (match codec::parse_answer(old(base).answer_queue@[0]@) {
                None => r is Err && *final(bindings_set) == *old(bindings_set),
                Some(v) => {
                    let b = codec::answer_bindings(
                        Seq::empty(),
                        v.assignment,
                        v.metta,
                        populate_metta_mapping,
                    );
                    &&& final(bindings_set)@ == old(bindings_set)@.push(b)
                    &&& r == Ok::<DrainStep, String>(
                        if max_answers > 0 && old(bindings_set)@.len() + 1 >= max_answers {
                            DrainStep::LimitReached
                        } else {
                            DrainStep::Collected
                        },
                    )
                },
            })
        },
        old(base).wf() ==> final(base).wf(),
{
    if base.finished() {
        return Ok(DrainStep::Finished);
    }
    match base.pop() {
        Some(query_answer) => {
            let b = match codec::parse_query_answer(
                query_answer.as_str(),
                populate_metta_mapping,
            ) {
                Ok(b) => b,
                Err(e) => {
                    return Err(e);
                },
            };
            bindings_set.push(b);
            if max_answers > 0 && bindings_set.len() as u64 >= max_answers {
                Ok(DrainStep::LimitReached)
            } else {
                Ok(DrainStep::Collected)
            }
        },
        None => Ok(DrainStep::Empty),
    }
}

} // verus!
