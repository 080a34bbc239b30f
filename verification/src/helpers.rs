//! Query-text helpers: quote-aware token splitting and free-variable
//! extraction.

use vstd::prelude::*;

use crate::atoms::{
    atom_text, atom_view, atoms_view, lemma_atoms_view, lemma_atoms_view_push, Atom, AtomView,
};
use crate::text::{chars_of, str_eq, string_of_chars};

verus! {

/// The tokenizer's running state: the token being built, whether the scan
/// stands inside single or double quotes, and the tokens already emitted.
pub struct SplitState {
    pub cur: Seq<char>,
    pub in_single: bool,
    pub in_double: bool,
    pub out: Seq<Seq<char>>,
}

impl SplitState {
    pub open spec fn init() -> SplitState {
        SplitState { cur: Seq::empty(), in_single: false, in_double: false, out: Seq::empty() }
    }
}

/// One step of the quote-aware tokenizer.  Quotes of one kind are kept
/// verbatim inside the other kind; a closing quote ends the token; unquoted
/// whitespace separates tokens.
pub open spec fn split_step(st: SplitState, c: char) -> SplitState {
    if c == '\'' && !st.in_double && !st.in_single {
        SplitState { cur: st.cur.push(c), in_single: true, ..st }
    } else if c == '\'' && !st.in_double && st.in_single {
        SplitState {
            cur: Seq::empty(),
            in_single: false,
            in_double: st.in_double,
            out: st.out.push(st.cur.push(c)),
        }
    } else if c == '"' && !st.in_single && !st.in_double {
        SplitState { cur: st.cur.push(c), in_double: true, ..st }
    } else if c == '"' && !st.in_single && st.in_double {
        SplitState {
            cur: Seq::empty(),
            in_single: st.in_single,
            in_double: false,
            out: st.out.push(st.cur.push(c)),
        }
    } else if (c == ' ' || c == '\t' || c == '\n') && !st.in_single && !st.in_double {
        if st.cur.len() > 0 {
            SplitState { cur: Seq::empty(), out: st.out.push(st.cur), ..st }
        } else {
            st
        }
    } else {
        SplitState { cur: st.cur.push(c), ..st }
    }
}

/// The tokenizer's state after the first `i` characters of `s`.
pub open spec fn split_run(s: Seq<char>, i: int) -> SplitState
    decreases i,
{
    if i <= 0 {
        SplitState::init()
    } else {
        split_step(split_run(s, i - 1), s[i - 1])
    }
}

/// The tokens of `s`: the emitted tokens, with the unfinished token closing
/// the list when one is left.
pub open spec fn split_tokens(s: Seq<char>) -> Seq<Seq<char>> {
    let st = split_run(s, s.len() as int);
    if st.cur.len() > 0 {
        st.out.push(st.cur)
    } else {
        st.out
    }
}

/// Splits `s` on unquoted whitespace, keeping quoted runs (single or double
/// quotes) together with their quotes.
pub fn split_ignore_quoted(s: &str) -> (r: Vec<String>)
    ensures
        r.deep_view() == split_tokens(s@),
{
    let cs = chars_of(s);
    let mut cur: Vec<char> = Vec::new();
    let mut in_single = false;
    let mut in_double = false;
    let mut out: Vec<String> = Vec::new();
    let mut i: usize = 0;
    proof {
        assert(out.deep_view() =~~= Seq::<Seq<char>>::empty());
        assert(split_run(s@, 0) == SplitState::init());
    }
    while i < cs.len()
        invariant
            i <= cs@.len(),
            cs@ == s@,
            split_run(s@, i as int) == (SplitState {
                cur: cur@,
                in_single: in_single,
                in_double: in_double,
                out: out.deep_view(),
            }),
        decreases cs@.len() - i,
    {
        let ghost pre = SplitState {
            cur: cur@,
            in_single: in_single,
            in_double: in_double,
            out: out.deep_view(),
        };
        let ghost dv0 = out.deep_view();
        let c = cs[i];
        if c == '\'' && !in_double && !in_single {
            in_single = true;
            cur.push(c);
        } else if c == '\'' && !in_double && in_single {
            in_single = false;
            cur.push(c);
            let token = string_of_chars(&cur);
            let ghost tv = token@;
            out.push(token);
            proof {
                assert(out.deep_view() =~~= dv0.push(tv));
            }
            cur = Vec::new();
        } else if c == '"' && !in_single && !in_double {
            in_double = true;
            cur.push(c);
        } else if c == '"' && !in_single && in_double {
            in_double = false;
            cur.push(c);
            let token = string_of_chars(&cur);
            let ghost tv = token@;
            out.push(token);
            proof {
                assert(out.deep_view() =~~= dv0.push(tv));
            }
            cur = Vec::new();
        } else if (c == ' ' || c == '\t' || c == '\n') && !in_single && !in_double {
            if cur.len() > 0 {
                let token = string_of_chars(&cur);
                let ghost tv = token@;
                out.push(token);
                proof {
                    assert(out.deep_view() =~~= dv0.push(tv));
                }
                cur = Vec::new();
            }
        } else {
            cur.push(c);
        }
        proof {
            assert(split_run(s@, i + 1) == split_step(pre, s@[i as int]));
            assert(cur@ =~~= split_run(s@, i + 1).cur);
            assert(out.deep_view() =~~= split_run(s@, i + 1).out);
        }
        i += 1;
    }
    if cur.len() > 0 {
        let token = string_of_chars(&cur);
        let ghost tv = token@;
        let ghost dv0 = out.deep_view();
        out.push(token);
        proof {
            assert(out.deep_view() =~~= dv0.push(tv));
            assert(out.deep_view() =~~= split_tokens(s@));
        }
    } else {
        proof {
            assert(out.deep_view() =~~= split_tokens(s@));
        }
    }
    out
}

/// Appends one string, tracking the view.
pub fn push_string(dst: &mut Vec<String>, s: String)
    ensures
        final(dst).deep_view() == old(dst).deep_view().push(s@),
{
    let ghost sv = s@;
    let ghost before = dst.deep_view();
    dst.push(s);
    proof {
        assert(dst.deep_view() =~~= before.push(sv));
    }
}

/// Appends a copy of every string of `src` to `dst`, in order.
#[verifier::loop_isolation(false)]
pub fn extend_strings(dst: &mut Vec<String>, src: &Vec<String>)
    ensures
        final(dst).deep_view() == old(dst).deep_view() + src.deep_view(),
{
    let mut i: usize = 0;
    proof {
        assert(dst.deep_view() =~~= old(dst).deep_view() + src.deep_view().take(0));
    }
    while i < src.len()
        invariant
            i <= src@.len(),
            dst.deep_view() == old(dst).deep_view() + src.deep_view().take(i as int),
        decreases src@.len() - i,
    {
        let ghost before = dst.deep_view();
        let c = src[i].clone();
        let ghost cv = c@;
        proof {
            assert(cv == src.deep_view()[i as int]);
        }
        dst.push(c);
        proof {
            assert(dst.deep_view() =~~= before.push(cv));
            assert(dst.deep_view() =~~= old(dst).deep_view() + src.deep_view().take(i + 1));
        }
        i += 1;
    }
    proof {
        assert(src.deep_view().take(i as int) =~~= src.deep_view());
    }
}

/// A copy of a vector of strings.
pub fn clone_strings(src: &Vec<String>) -> (r: Vec<String>)
    ensures
        r.deep_view() == src.deep_view(),
{
    let mut r: Vec<String> = Vec::new();
    extend_strings(&mut r, src);
    proof {
        assert(r.deep_view() =~~= src.deep_view());
    }
    r
}

/// The cleaned variable name of a `$`-token: the token with every `$` and
/// `)` removed.
pub open spec fn cleaned_var(t: Seq<char>) -> Seq<char> {
    t.filter(|c: char| c != '$' && c != ')')
}

/// The free-variable names of a token list: the cleaned name of every token
/// beginning with `$`, and the token after every `VARIABLE` token.
pub open spec fn var_names(tokens: Seq<Seq<char>>) -> Set<Seq<char>> {
    Set::new(
        |v: Seq<char>|
            exists|i: int|
                0 <= i < tokens.len() && {
                    let t = #[trigger] tokens[i];
                    ||| (t.len() > 0 && t[0] == '$' && v == cleaned_var(t))
                    ||| (t == "VARIABLE"@ && i + 1 < tokens.len() && v == tokens[i + 1])
                },
    )
}

/// Pushing keeps membership and adds the pushed element.
proof fn lemma_push_contains(s: Seq<Seq<char>>, x: Seq<char>)
    ensures
        s.push(x).contains(x),
        forall|v: Seq<char>| s.contains(v) ==> #[trigger] s.push(x).contains(v),
{
    assert(s.push(x)[s.len() as int] == x);
    assert forall|v: Seq<char>| s.contains(v) implies #[trigger] s.push(x).contains(v) by {
        let k = choose|k: int| 0 <= k < s.len() && s[k] == v;
        assert(s.push(x)[k] == v);
    }
}

fn remove_var_marks(t: &str) -> (r: String)
    ensures
        r@ == cleaned_var(t@),
{
    let cs = chars_of(t);
    let mut kept: Vec<char> = Vec::new();
    let mut j: usize = 0;
    proof {
        assert(t@.take(0) =~~= Seq::<char>::empty());
        assert(Seq::<char>::empty().filter(|c: char| c != '$' && c != ')')
            =~~= Seq::<char>::empty());
    }
    while j < cs.len()
        invariant
            j <= cs@.len(),
            cs@ == t@,
            kept@ == t@.take(j as int).filter(|c: char| c != '$' && c != ')'),
        decreases cs@.len() - j,
    {
        let c = cs[j];
        proof {
            let p = |c: char| c != '$' && c != ')';
            assert(t@.take(j + 1) =~~= t@.take(j as int) + seq![t@[j as int]]);
            Seq::<char>::filter_distributes_over_add(t@.take(j as int), seq![t@[j as int]], p);
            assert(t@.take(j + 1).filter(p) =~~= t@.take(j as int).filter(p) + seq![
                t@[j as int],
            ].filter(p));
            reveal_with_fuel(Seq::<char>::filter, 2);
            assert(seq![t@[j as int]].filter(p) =~~= if p(t@[j as int]) {
                seq![t@[j as int]]
            } else {
                Seq::<char>::empty()
            });
        }
        if c != '$' && c != ')' {
            kept.push(c);
        }
        j += 1;
    }
    proof {
        assert(t@.take(j as int) =~~= t@);
    }
    string_of_chars(&kept)
}

/// Whether `v` already occurs in `acc`.
pub fn contains_name(acc: &Vec<String>, v: &str) -> (r: bool)
    ensures
        r == acc.deep_view().contains(v@),
{
    let mut i: usize = 0;
    while i < acc.len()
        invariant
            i <= acc@.len(),
            forall|j: int| 0 <= j < i ==> acc.deep_view()[j] != v@,
        decreases acc@.len() - i,
    {
        if str_eq(acc[i].as_str(), v) {
            proof {
                assert(acc.deep_view()[i as int] == v@);
            }
            return true;
        }
        i += 1;
    }
    false
}

/// The free variables named by `atom_str`: tokens beginning with `$` (with
/// the `$` and any `)` stripped) and tokens following a `VARIABLE` marker.
/// Each name is listed once, in first-appearance order.
pub fn map_variables(atom_str: &str) -> (r: Vec<String>)
    ensures
        forall|v: Seq<char>| r.deep_view().contains(v) <==> var_names(split_tokens(atom_str@)).contains(
            v,
        ),
        forall|a: int, b: int|
            0 <= a < b < r.deep_view().len() ==> r.deep_view()[a] != r.deep_view()[b],
{
    let tokens = split_ignore_quoted(atom_str);
    let ghost tv = tokens.deep_view();
    let mut acc: Vec<String> = Vec::new();
    let mut i: usize = 0;
    proof {
        reveal_strlit("VARIABLE");
        assert("VARIABLE"@[0] == 'V');
    }
    while i < tokens.len()
        invariant
            i <= tokens@.len(),
            tv == tokens.deep_view(),
            tv == split_tokens(atom_str@),
            tokens@.len() == tv.len(),
            forall|v: Seq<char>| acc.deep_view().contains(v) ==> var_names(tv).contains(v),
            forall|j: int|
                0 <= j < i ==> {
                    let t = #[trigger] tv[j];
                    &&& (t.len() > 0 && t[0] == '$' ==> acc.deep_view().contains(cleaned_var(t)))
                    &&& (t == "VARIABLE"@ && j + 1 < tv.len() ==> acc.deep_view().contains(
                        tv[j + 1],
                    ))
                },
            forall|a: int, b: int|
                0 <= a < b < acc.deep_view().len() ==> acc.deep_view()[a] != acc.deep_view()[b],
        decreases tokens@.len() - i,
    {
        let ghost acc0 = acc.deep_view();
        let token = &tokens[i];
        proof {
            assert(tv[i as int] == tokens@[i as int]@);
        }
        if token.as_str().unicode_len() > 0 && token.as_str().get_char(0) == '$' {
            let name = remove_var_marks(token.as_str());
            let ghost nv = name@;
            proof {
                reveal_strlit("VARIABLE");
                assert("VARIABLE"@[0] == 'V');
                assert(tv[i as int][0] == '$');
                assert(tv[i as int] != "VARIABLE"@);
            }
            if !contains_name(&acc, name.as_str()) {
                acc.push(name);
                proof {
                    assert(acc.deep_view() =~~= acc0.push(nv));
                    lemma_push_contains(acc0, nv);
                    assert(var_names(tv).contains(nv)) by {
                        assert(tv[i as int].len() > 0 && tv[i as int][0] == '$' && nv
                            == cleaned_var(tv[i as int]));
                    }
                }
            }
        } else if str_eq(token.as_str(), "VARIABLE") {
            if i + 1 < tokens.len() {
                let next = tokens[i + 1].clone();
                let ghost nv = next@;
                proof {
                    assert(tv[i + 1] == tokens@[i + 1]@);
                }
                if !contains_name(&acc, next.as_str()) {
                    acc.push(next);
                    proof {
                        assert(acc.deep_view() =~~= acc0.push(nv));
                        lemma_push_contains(acc0, nv);
                        assert(var_names(tv).contains(nv)) by {
                            assert(tv[i as int] == "VARIABLE"@ && i + 1 < tv.len());
                            assert(nv == tv[i + 1]);
                        }
                    }
                }
            }
        }
        i += 1;
    }
    proof {
        assert forall|v: Seq<char>| var_names(tv).contains(v) implies acc.deep_view().contains(
            v,
        ) by {
            let j = choose|j: int|
                0 <= j < tv.len() && {
                    let t = #[trigger] tv[j];
                    ||| (t.len() > 0 && t[0] == '$' && v == cleaned_var(t))
                    ||| (t == "VARIABLE"@ && j + 1 < tv.len() && v == tv[j + 1])
                };
        }
    }
    acc
}

/// Whether `c` occurs in `s`.
pub open spec fn contains_char(s: Seq<char>, c: char) -> bool {
    exists|i: int| 0 <= i < s.len() && s[i] == c
}

/// Whether an atom's text calls for interpreter expansion: it holds an
/// evaluation sigil.
pub fn needs_expansion(atom: &Atom) -> (r: bool)
    ensures
        r == contains_char(atom_text(atom_view(atom)), '!'),
{
    let t = atom.to_text();
    let cs = chars_of(t.as_str());
    let mut i: usize = 0;
    while i < cs.len()
        invariant
            i <= cs@.len(),
            cs@ == atom_text(atom_view(atom)),
            forall|k: int| 0 <= k < i ==> cs@[k] != '!',
        decreases cs@.len() - i,
    {
        if cs[i] == '!' {
            return true;
        }
        i += 1;
    }
    false
}

/// An atom with generated variable suffixes removed: a variable keeps only
/// what stands before the first `#` of its name; expressions are cleaned
/// child by child.
pub open spec fn cleaned_atom(v: AtomView) -> AtomView
    decreases v,
{
    match v {
        AtomView::Variable(n) => AtomView::Variable(n.take(crate::proxy::idx_of(n, '#', 0))),
        AtomView::Expression(children) => AtomView::Expression(cleaned_atoms(children)),
        _ => v,
    }
}

/// The cleaned forms of a run of atoms.
pub open spec fn cleaned_atoms(s: Seq<AtomView>) -> Seq<AtomView>
    decreases s,
{
    if s.len() == 0 {
        Seq::empty()
    } else {
        seq![cleaned_atom(s[0])] + cleaned_atoms(s.drop_first())
    }
}

proof fn lemma_cleaned_atoms_push(s: Seq<AtomView>, e: AtomView)
    ensures
        cleaned_atoms(s.push(e)) == cleaned_atoms(s).push(cleaned_atom(e)),
    decreases s,
{
    if s.len() == 0 {
        assert(s.push(e)[0] == e);
        assert(s.push(e).drop_first() =~~= Seq::<AtomView>::empty());
        assert(cleaned_atoms(Seq::<AtomView>::empty()) =~~= Seq::<AtomView>::empty());
        assert(cleaned_atoms(s.push(e)) =~~= cleaned_atoms(s).push(cleaned_atom(e)));
    } else {
        lemma_cleaned_atoms_push(s.drop_first(), e);
        assert(s.push(e)[0] == s[0]);
        assert(s.push(e).drop_first() =~~= s.drop_first().push(e));
        assert(cleaned_atoms(s.push(e)) =~~= cleaned_atoms(s).push(cleaned_atom(e)));
    }
}

/// Cleans generated variable suffixes out of an atom: a variable keeps only
/// what stands before the first `#` of its name.
#[verifier::loop_isolation(false)]
pub fn output_variable_clean_up(atom: &Atom) -> (r: Atom)
    ensures
        atom_view(&r) == cleaned_atom(atom_view(atom)),
    decreases atom,
{
    match atom {
        Atom::Variable(n) => {
            let cs = chars_of(n.as_str());
            let cut = crate::proxy::find_char(&cs, '#', 0);
            let mut prefix: Vec<char> = Vec::new();
            let mut k: usize = 0;
            proof {
                assert(prefix@ =~~= cs@.take(0));
            }
            while k < cut
                invariant
                    k <= cut <= cs@.len(),
                    prefix@ == cs@.take(k as int),
                decreases cut - k,
            {
                prefix.push(cs[k]);
                proof {
                    assert(prefix@ =~~= cs@.take(k + 1));
                }
                k += 1;
            }
            Atom::Variable(string_of_chars(&prefix))
        },
        Atom::Expression(children) => {
            let ghost cv = atoms_view(children@);
            proof {
                lemma_atoms_view(children@);
            }
            let mut out: Vec<Atom> = Vec::new();
            let mut i: usize = 0;
            proof {
                assert(atoms_view(out@) =~~= cleaned_atoms(cv).take(0));
                lemma_cleaned_atoms_len(cv);
            }
            while i < children.len()
                invariant
                    i <= children@.len(),
                    cv.len() == children@.len(),
                    cleaned_atoms(cv).len() == cv.len(),
                    forall|k: int| 0 <= k < cv.len() ==> cv[k] == atom_view(&children@[k]),
                    forall|k: int| 0 <= k < cv.len() ==> #[trigger] cleaned_atoms(cv)[k]
                        == cleaned_atom(cv[k]),
                    atoms_view(out@) == cleaned_atoms(cv).take(i as int),
                decreases children@.len() - i,
            {
                proof {
                    assert(decreases_to!(atom => children@[i as int]));
                }
                let c = output_variable_clean_up(&children[i]);
                let ghost cx = c;
                let ghost before = out@;
                out.push(c);
                proof {
                    assert(out@ =~~= before.push(cx));
                    lemma_atoms_view_push(before, cx);
                    assert(atoms_view(out@) =~~= cleaned_atoms(cv).take(i + 1));
                }
                i += 1;
            }
            proof {
                assert(cleaned_atoms(cv).take(i as int) =~~= cleaned_atoms(cv));
            }
            Atom::Expression(out)
        },
        Atom::Symbol(s) => Atom::Symbol(s.clone()),
        Atom::Grounded(s) => Atom::Grounded(s.clone()),
    }
}

/// `cleaned_atoms` is the element-wise cleaning.
pub proof fn lemma_cleaned_atoms_len(s: Seq<AtomView>)
    ensures
        cleaned_atoms(s).len() == s.len(),
        forall|k: int| 0 <= k < s.len() ==> #[trigger] cleaned_atoms(s)[k] == cleaned_atom(s[k]),
    decreases s,
{
    if s.len() > 0 {
        lemma_cleaned_atoms_len(s.drop_first());
        assert forall|k: int| 0 <= k < s.len() implies #[trigger] cleaned_atoms(s)[k]
            == cleaned_atom(s[k]) by {
            if k > 0 {
                assert(s.drop_first()[k - 1] == s[k]);
            }
        }
    }
}

/// An expanded atom's final form: an expression keeps its non-sigil
/// children, each cleaned; anything else stands as it is.
pub open spec fn expansion_transform(v: AtomView) -> AtomView {
    match v {
        AtomView::Expression(children) => AtomView::Expression(non_sigil_cleaned(children)),
        _ => v,
    }
}

/// The cleaned non-sigil children of an expression.
pub open spec fn non_sigil_cleaned(s: Seq<AtomView>) -> Seq<AtomView>
    decreases s,
{
    if s.len() == 0 {
        Seq::empty()
    } else {
        (if s[0] == AtomView::Symbol("!"@) {
            Seq::empty()
        } else {
            seq![cleaned_atom(s[0])]
        }) + non_sigil_cleaned(s.drop_first())
    }
}

/// The last atom of a nested interpreter result, if any.
pub open spec fn last_expanded(result: Seq<Seq<AtomView>>) -> Option<AtomView>
    decreases result.len(),
{
    if result.len() == 0 {
        None
    } else if result.last().len() > 0 {
        Some(result.last().last())
    } else {
        last_expanded(result.drop_last())
    }
}

/// The views of a nested run of atoms.
pub open spec fn nested_views(r: Seq<Vec<Atom>>) -> Seq<Seq<AtomView>> {
    r.map_values(|v: Vec<Atom>| atoms_view(v@))
}

/// Folds an interpreter result onto a query child: the last expanded atom,
/// transformed, replaces the child; a child whose expansion produced
/// nothing stands as it is.
#[verifier::loop_isolation(false)]
pub fn expansion_of(child: &Atom, result: &Vec<Vec<Atom>>) -> (r: Atom)
    ensures
        atom_view(&r) == (match last_expanded(nested_views(result@)) {
            Some(a) => expansion_transform(a),
            None => atom_view(child),
        }),
{
    let ghost rv = nested_views(result@);
    let mut current = child.clone_atom();
    let mut i: usize = 0;
    proof {
        assert(rv.take(0) =~~= Seq::<Seq<AtomView>>::empty());
    }
    while i < result.len()
        invariant
            i <= result@.len(),
            rv.len() == result@.len(),
            forall|k: int| 0 <= k < rv.len() ==> rv[k] == atoms_view(
                (#[trigger] result@[k])@,
            ),
            atom_view(&current) == (match last_expanded(rv.take(i as int)) {
                Some(a) => expansion_transform(a),
                None => atom_view(child),
            }),
        decreases result@.len() - i,
    {
        let inner = &result[i];
        proof {
            crate::atoms::lemma_atoms_view(inner@);
        }
        if inner.len() > 0 {
            let expanded = &inner[inner.len() - 1];
            let next = match expanded {
                Atom::Expression(kids) => {
                    proof {
                        crate::atoms::lemma_atoms_view(kids@);
                    }
                    let ghost kv = atoms_view(kids@);
                    let mut picked: Vec<Atom> = Vec::new();
                    let mut j: usize = 0;
                    proof {
                        assert(kv.skip(0) =~~= kv);
                        assert(atoms_view(picked@) + non_sigil_cleaned(kv.skip(0))
                            =~~= non_sigil_cleaned(kv));
                    }
                    while j < kids.len()
                        invariant
                            j <= kids@.len(),
                            kv.len() == kids@.len(),
                            forall|k: int| 0 <= k < kv.len() ==> kv[k] == atom_view(&kids@[k]),
                            non_sigil_cleaned(kv) == atoms_view(picked@) + non_sigil_cleaned(
                                kv.skip(j as int),
                            ),
                        decreases kids@.len() - j,
                    {
                        proof {
                            assert(kv.skip(j as int)[0] == kv[j as int]);
                            assert(kv.skip(j as int).drop_first() =~~= kv.skip(j + 1));
                        }
                        let is_sigil = match &kids[j] {
                            Atom::Symbol(s) => crate::text::str_eq(s.as_str(), "!"),
                            _ => false,
                        };
                        proof {
                            reveal_strlit("!");
                            assert("!"@.len() == 1);
                            assert(is_sigil == (kv[j as int] == AtomView::Symbol("!"@)));
                        }
                        if !is_sigil {
                            let c = output_variable_clean_up(&kids[j]);
                            let ghost cx = c;
                            let ghost before = picked@;
                            picked.push(c);
                            proof {
                                assert(picked@ =~~= before.push(cx));
                                lemma_atoms_view_push(before, cx);
                                let rest2 = non_sigil_cleaned(kv.skip(j + 1));
                                assert(atoms_view(before) + (seq![cleaned_atom(kv[j as int])]
                                    + rest2) =~~= atoms_view(picked@) + rest2);
                            }
                        } else {
                            proof {
                                assert(Seq::<AtomView>::empty() + non_sigil_cleaned(
                                    kv.skip(j + 1),
                                ) =~~= non_sigil_cleaned(kv.skip(j + 1)));
                            }
                        }
                        j += 1;
                    }
                    proof {
                        assert(kv.skip(j as int).len() == 0);
                        assert(non_sigil_cleaned(kv.skip(j as int)) =~~= Seq::<AtomView>::empty());
                        assert(atoms_view(picked@) + Seq::<AtomView>::empty() =~~= atoms_view(
                            picked@,
                        ));
                    }
                    Atom::Expression(picked)
                },
                _ => expanded.clone_atom(),
            };
            current = next;
            proof {
                assert(rv.take(i + 1).last() == rv[i as int]);
                assert(rv.take(i + 1).len() > 0);
                assert(rv[i as int].len() > 0);
                assert(last_expanded(rv.take(i + 1)) == Some(rv[i as int].last()));
                assert(rv[i as int].last() == atom_view(&inner@[inner@.len() - 1]));
            }
        } else {
            proof {
                assert(rv.take(i + 1).last() == rv[i as int]);
                assert(rv[i as int].len() == 0);
                assert(rv.take(i + 1).drop_last() =~~= rv.take(i as int));
            }
        }
        i += 1;
    }
    proof {
        assert(rv.take(i as int) =~~= rv);
    }
    current
}

} // verus!
