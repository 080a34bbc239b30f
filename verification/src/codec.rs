//! Query-answer wire codec.
//!
//! A query answer travels as one space-separated positional string:
//! a strength field of up to 13 characters, an importance field of up to 13
//! characters, a handle count of up to 4 characters followed by that many
//! 32-character handles, an assignment count followed by that many
//! label/handle pairs, and a mapping count followed by that many
//! handle/expression pairs.  An expression is a balanced scan: from `(`
//! until its matching `)`, from `"` until the matching unescaped `"`, and
//! otherwise until whitespace; a preceding backslash escapes the delimiter.

use vstd::prelude::*;

use crate::atoms::{Atom, AtomView};
use crate::bindings::Bindings;
use crate::text::{chars_of, dec_str, is_u64_text, parse_u64, string_of_chars, u64_text_val, u64_to_string};

verus! {

/// The first position at or after `from` holding a space, or the end.
pub open spec fn token_end(s: Seq<char>, from: int) -> int
    decreases s.len() - from,
{
    if from < 0 {
        0
    } else if from >= s.len() || s[from] == ' ' {
        from
    } else {
        token_end(s, from + 1)
    }
}

pub proof fn lemma_token_end(s: Seq<char>, from: int)
    requires
        0 <= from <= s.len(),
    ensures
        from <= token_end(s, from) <= s.len(),
        token_end(s, from) < s.len() ==> s[token_end(s, from)] == ' ',
        forall|j: int| from <= j < token_end(s, from) ==> s[j] != ' ',
    decreases s.len() - from,
{
    if from < s.len() && s[from] != ' ' {
        lemma_token_end(s, from + 1);
    }
}

/// The cursor after a token ending at `end`: past the separating space when
/// one is there.
pub open spec fn skip_space(s: Seq<char>, end: int) -> int {
    if end < s.len() {
        end + 1
    } else {
        end
    }
}

/// Reads one token of at most `size` characters at `from`: the characters
/// up to the next space.  Fails when the token is longer than `size` or
/// holds a NUL character.
pub open spec fn read_tok(s: Seq<char>, from: int, size: int) -> Option<(Seq<char>, int)> {
    let end = token_end(s, from);
    if end - from <= size && (forall|j: int| from <= j < end ==> s[j] != '\u{0}') {
        Some((s.subrange(from, end), skip_space(s, end)))
    } else {
        None
    }
}

/// Reads one token of at most `size` characters, advancing the cursor past
/// the token and its separating space.  An error reports a token longer
/// than `size` or one holding a NUL character, and leaves the cursor where
/// it stood.
pub fn read_token(ts: &Vec<char>, cursor: &mut usize, token_size: usize) -> (r: Result<
    String,
    String,
>)
    requires
        *old(cursor) <= ts@.len(),
    ensures
        r is Ok <==> read_tok(ts@, *old(cursor) as int, token_size as int) is Some,
        r matches Ok(t) ==> {
            &&& read_tok(ts@, *old(cursor) as int, token_size as int) matches Some(p)
            &&& t@ == p.0
            &&& *final(cursor) == p.1
        },
        r is Err ==> *final(cursor) == *old(cursor),
        *final(cursor) <= ts@.len(),
{
    let from = *cursor;
    let ghost f = from as int;
    let mut end: usize = from;
    let mut token: Vec<char> = Vec::new();
    let mut count: usize = 0;
    proof {
        assert(token@ =~~= ts@.subrange(f, f));
    }
    while end < ts.len() && ts[end] != ' '
        invariant
            f == *old(cursor) as int,
            *cursor == *old(cursor),
            0 <= f <= end <= ts@.len(),
            count == end - f,
            token@ == ts@.subrange(f, end as int),
            token_end(ts@, f) == token_end(ts@, end as int),
            count <= token_size,
            forall|j: int| f <= j < end ==> ts@[j] != '\u{0}',
        decreases ts@.len() - end,
    {
        if count == token_size || ts[end] == '\u{0}' {
            proof {
                lemma_token_end(ts@, f);
                lemma_token_end(ts@, end as int);
                if count == token_size {
                    assert(token_end(ts@, f) - f > token_size);
                } else {
                    assert(ts@[end as int] == '\u{0}');
                    assert(end < token_end(ts@, f));
                }
            }
            return Err(String::from_str("Invalid token string"));
        }
        token.push(ts[end]);
        proof {
            assert(token@ =~~= ts@.subrange(f, end + 1));
        }
        end += 1;
        count += 1;
    }
    proof {
        assert(token_end(ts@, end as int) == end);
        assert(token_end(ts@, f) == end);
        lemma_token_end(ts@, f);
    }
    if end < ts.len() {
        *cursor = end + 1;
    } else {
        *cursor = end;
    }
    Ok(string_of_chars(&token))
}

/// The state of a balanced scan from position `i`: `Some` of the position
/// just past the closing delimiter, or `None` when the text ends first.
/// A delimiter preceded by a backslash is not counted.
pub open spec fn scan_balanced(s: Seq<char>, i: int, open: char, close: char, depth: int) -> Option<
    int,
>
    decreases s.len() - i,
{
    if depth <= 0 {
        Some(i)
    } else if i < 1 || i >= s.len() {
        None
    } else {
        let d = if s[i] == close && s[i - 1] != '\\' {
            depth - 1
        } else if s[i] == open && s[i - 1] != '\\' {
            depth + 1
        } else {
            depth
        };
        scan_balanced(s, i + 1, open, close, d)
    }
}

/// The opening delimiter chosen for an expression beginning with `c`.
pub open spec fn expr_open(c: char) -> char {
    if c == '(' {
        '('
    } else if c == '"' {
        '"'
    } else {
        ' '
    }
}

/// The closing delimiter matching `expr_open(c)`.
pub open spec fn expr_close(c: char) -> char {
    if c == '(' {
        ')'
    } else if c == '"' {
        '"'
    } else {
        ' '
    }
}

/// Reads one expression at `from`: a balanced scan from the opening
/// delimiter.  `Some` holds the expression text and the cursor after it.
pub open spec fn read_expr(s: Seq<char>, from: int) -> Option<(Seq<char>, int)> {
    if from >= s.len() {
        None
    } else {
        let open = expr_open(s[from]);
        let close = expr_close(s[from]);
        match scan_balanced(s, from + 1, open, close, 1) {
            None => None,
            Some(end) => Some(
                (
                    s.subrange(from, end),
                    if close != ' ' && end < s.len() {
                        end + 1
                    } else {
                        end
                    },
                ),
            ),
        }
    }
}

/// Reads one balanced expression, advancing the cursor past it (and past
/// one more character when the expression was delimited).  An error
/// reports a truncated expression and leaves the cursor where it stood.
pub fn read_metta_expression(ts: &Vec<char>, cursor: &mut usize) -> (r: Result<String, String>)
    requires
        *old(cursor) <= ts@.len(),
    ensures
        r is Ok <==> read_expr(ts@, *old(cursor) as int) is Some,
        r matches Ok(t) ==> {
            &&& read_expr(ts@, *old(cursor) as int) matches Some(p)
            &&& t@ == p.0
            &&& *final(cursor) == p.1
        },
        r is Err ==> *final(cursor) == *old(cursor),
        *final(cursor) <= ts@.len(),
{
    let start = *cursor;
    if start >= ts.len() {
        return Err(String::from_str("Invalid metta expression string"));
    }
    let first = ts[start];
    let (open, close) = if first == '(' {
        ('(', ')')
    } else if first == '"' {
        ('"', '"')
    } else {
        (' ', ' ')
    };
    let mut i: usize = start + 1;
    let mut depth: usize = 1;
    while depth > 0
        invariant
            start == *old(cursor),
            *cursor == *old(cursor),
            start + 1 <= i <= ts@.len(),
            start < ts@.len(),
            open == expr_open(ts@[start as int]),
            close == expr_close(ts@[start as int]),
            depth <= i,
            scan_balanced(ts@, start + 1, open, close, 1) == scan_balanced(
                ts@,
                i as int,
                open,
                close,
                depth as int,
            ),
        decreases ts@.len() - i,
    {
        if i >= ts.len() {
            return Err(String::from_str("Invalid metta expression string"));
        }
        let c = ts[i];
        let p = ts[i - 1];
        if c == close && p != '\\' {
            depth -= 1;
        } else if c == open && p != '\\' {
            depth += 1;
        }
        i += 1;
    }
    let end = i;
    proof {
        assert(scan_balanced(ts@, end as int, open, close, 0) == Some(end as int));
    }
    let mut token: Vec<char> = Vec::new();
    let mut j: usize = start;
    while j < end
        invariant
            start <= j <= end <= ts@.len(),
            token@ == ts@.subrange(start as int, j as int),
        decreases end - j,
    {
        token.push(ts[j]);
        proof {
            assert(token@ =~~= ts@.subrange(start as int, j + 1));
        }
        j += 1;
    }
    if close != ' ' && end < ts.len() {
        *cursor = end + 1;
    } else {
        *cursor = end;
    }
    Ok(string_of_chars(&token))
}

/// The numeric value of a count field, or zero when it is not numeric.
pub open spec fn num_or_zero(t: Seq<char>) -> int {
    if is_u64_text(t) {
        u64_text_val(t)
    } else {
        0
    }
}

/// Reads `n` consecutive tokens of at most `size` characters each.
pub open spec fn read_n_tokens(s: Seq<char>, from: int, n: int, size: int) -> Option<
    (Seq<Seq<char>>, int),
>
    decreases n,
{
    if n <= 0 {
        Some((Seq::empty(), from))
    } else {
        match read_tok(s, from, size) {
            None => None,
            Some((t, c)) => match read_n_tokens(s, c, n - 1, size) {
                None => None,
                Some((rest, e)) => Some((seq![t] + rest, e)),
            },
        }
    }
}

/// Reads `n` consecutive label/handle pairs.
pub open spec fn read_n_pairs(s: Seq<char>, from: int, n: int, size1: int, size2: int) -> Option<
    (Seq<(Seq<char>, Seq<char>)>, int),
>
    decreases n,
{
    if n <= 0 {
        Some((Seq::empty(), from))
    } else {
        match read_tok(s, from, size1) {
            None => None,
            Some((a, c1)) => match read_tok(s, c1, size2) {
                None => None,
                Some((b, c2)) => match read_n_pairs(s, c2, n - 1, size1, size2) {
                    None => None,
                    Some((rest, e)) => Some((seq![(a, b)] + rest, e)),
                },
            },
        }
    }
}

/// Reads `n` consecutive handle/expression pairs.
pub open spec fn read_n_mappings(s: Seq<char>, from: int, n: int) -> Option<
    (Seq<(Seq<char>, Seq<char>)>, int),
>
    decreases n,
{
    if n <= 0 {
        Some((Seq::empty(), from))
    } else {
        match read_tok(s, from, 32) {
            None => None,
            Some((h, c1)) => match read_expr(s, c1) {
                None => None,
                Some((e, c2)) => match read_n_mappings(s, c2, n - 1) {
                    None => None,
                    Some((rest, end)) => Some((seq![(h, e)] + rest, end)),
                },
            },
        }
    }
}

/// Whether `c` is whitespace for the purpose of the trailing-text check.
pub open spec fn is_wsp(c: char) -> bool {
    c == ' ' || c == '\t' || c == '\n' || c == '\r'
}

/// Whether everything from `from` on is whitespace.
pub open spec fn trailing_ok(s: Seq<char>, from: int) -> bool {
    forall|j: int| from <= j < s.len() ==> is_wsp(#[trigger] s[j])
}

/// The parsed fields of a query answer.
pub struct AnswerView {
    pub strength: Seq<char>,
    pub importance: Seq<char>,
    pub handles: Seq<Seq<char>>,
    pub assignment: Seq<(Seq<char>, Seq<char>)>,
    pub metta: Seq<(Seq<char>, Seq<char>)>,
}

/// Parses a whole query-answer string: strength, importance, the counted
/// handle, assignment and mapping sections, and nothing but whitespace
/// after them.  A handle or assignment count over 100 is refused.
pub open spec fn parse_answer(s: Seq<char>) -> Option<AnswerView> {
    match read_tok(s, 0, 13) {
        None => None,
        Some((strength, c1)) => match read_tok(s, c1, 13) {
            None => None,
            Some((importance, c2)) => match read_tok(s, c2, 4) {
                None => None,
                Some((hs, c3)) => {
                    let n_h = num_or_zero(hs);
                    if n_h > 100 {
                        None
                    } else {
                        match read_n_tokens(s, c3, n_h, 32) {
                            None => None,
                            Some((handles, c4)) => match read_tok(s, c4, 4) {
                                None => None,
                                Some((az, c5)) => {
                                    let n_a = num_or_zero(az);
                                    if n_a > 100 {
                                        None
                                    } else {
                                        match read_n_pairs(s, c5, n_a, 100, 32) {
                                            None => None,
                                            Some((assignment, c6)) => match read_tok(s, c6, 4) {
                                                None => None,
                                                Some((ms, c7)) => {
                                                    let n_m = num_or_zero(ms);
                                                    match read_n_mappings(s, c7, n_m) {
                                                        None => None,
                                                        Some((metta, c8)) => {
                                                            if trailing_ok(s, c8) {
                                                                Some(
                                                                    AnswerView {
                                                                        strength,
                                                                        importance,
                                                                        handles,
                                                                        assignment,
                                                                        metta,
                                                                    },
                                                                )
                                                            } else {
                                                                None
                                                            }
                                                        },
                                                    }
                                                },
                                            },
                                        }
                                    }
                                },
                            },
                        }
                    }
                },
            },
        },
    }
}

/// A decoded query answer.  The strength and importance fields keep their
/// wire text.
#[derive(Debug)]
pub struct QueryAnswer {
    pub strength: String,
    pub importance: String,
    pub handles: Vec<String>,
    pub assignment: Vec<(String, String)>,
    pub metta_expression: Vec<(String, String)>,
}

/// The view of a vector of string pairs.
pub open spec fn pairs_view(v: Seq<(String, String)>) -> Seq<(Seq<char>, Seq<char>)> {
    v.map_values(|p: (String, String)| (p.0@, p.1@))
}

impl View for QueryAnswer {
    type V = AnswerView;

    open spec fn view(&self) -> AnswerView {
        AnswerView {
            strength: self.strength@,
            importance: self.importance@,
            handles: self.handles.deep_view(),
            assignment: pairs_view(self.assignment@),
            metta: pairs_view(self.metta_expression@),
        }
    }
}

spec fn prepend_toks(acc: Seq<Seq<char>>, r: Option<(Seq<Seq<char>>, int)>) -> Option<
    (Seq<Seq<char>>, int),
> {
    match r {
        None => None,
        Some((v, e)) => Some((acc + v, e)),
    }
}

spec fn prepend_pairs(
    acc: Seq<(Seq<char>, Seq<char>)>,
    r: Option<(Seq<(Seq<char>, Seq<char>)>, int)>,
) -> Option<(Seq<(Seq<char>, Seq<char>)>, int)> {
    match r {
        None => None,
        Some((v, e)) => Some((acc + v, e)),
    }
}

impl QueryAnswer {
    /// An answer with empty fields.
    pub fn new() -> (r: QueryAnswer)
        ensures
            r@.strength == Seq::<char>::empty(),
            r@.importance == Seq::<char>::empty(),
            r@.handles == Seq::<Seq<char>>::empty(),
            r@.assignment == Seq::<(Seq<char>, Seq<char>)>::empty(),
            r@.metta == Seq::<(Seq<char>, Seq<char>)>::empty(),
    {
        let r = QueryAnswer {
            strength: String::new(),
            importance: String::new(),
            handles: Vec::new(),
            assignment: Vec::new(),
            metta_expression: Vec::new(),
        };
        proof {
            assert(r@.handles =~~= Seq::<Seq<char>>::empty());
            assert(r@.assignment =~~= Seq::<(Seq<char>, Seq<char>)>::empty());
            assert(r@.metta =~~= Seq::<(Seq<char>, Seq<char>)>::empty());
        }
        r
    }

    /// Decodes `query_answer_str`, overwriting the strength and importance
    /// fields and appending to the handle, assignment and mapping lists.
    /// An error reports the first protocol violation: an oversized or
    /// NUL-bearing token, a count over 100, a truncated expression, or
    /// text after the answer.
    #[verifier::loop_isolation(false)]
    #[verifier::rlimit(100)]
    pub fn untokenize(&mut self, query_answer_str: &str) -> (r: Result<(), String>)
        ensures
            r is Ok <==> parse_answer(query_answer_str@) is Some,
            r matches Ok(_) ==> {
                &&& parse_answer(query_answer_str@) matches Some(v)
                &&& final(self)@.strength == v.strength
                &&& final(self)@.importance == v.importance
                &&& final(self)@.handles == old(self)@.handles + v.handles
                &&& final(self)@.assignment == old(self)@.assignment + v.assignment
                &&& final(self)@.metta == old(self)@.metta + v.metta
            },
    {
        let ghost s = query_answer_str@;
        let ts = chars_of(query_answer_str);
        let mut cursor: usize = 0;

        let strength = match read_token(&ts, &mut cursor, 13) {
            Ok(t) => t,
            Err(e) => {
                return Err(e);
            },
        };
        let ghost c1 = cursor as int;
        let importance = match read_token(&ts, &mut cursor, 13) {
            Ok(t) => t,
            Err(e) => {
                return Err(e);
            },
        };
        let ghost c2 = cursor as int;

        let handles_tok = match read_token(&ts, &mut cursor, 4) {
            Ok(t) => t,
            Err(e) => {
                return Err(e);
            },
        };
        let ghost c3 = cursor as int;
        let handles_size: u64 = match parse_u64(&chars_of(handles_tok.as_str())) {
            Some(v) => v,
            None => 0,
        };
        if handles_size > 100 {
            return Err(String::from_str("Invalid handles_size untokenizing QueryAnswer"));
        }
        let mut handles: Vec<String> = Vec::new();
        let mut k: u64 = 0;
        proof {
            assert(handles.deep_view() =~~= Seq::<Seq<char>>::empty());
            assert(prepend_toks(
                Seq::empty(),
                read_n_tokens(s, c3, handles_size as int, 32),
            ) == read_n_tokens(s, c3, handles_size as int, 32));
        }
        while k < handles_size
            invariant
                ts@ == s,
                k <= handles_size,
                cursor <= ts@.len(),
                read_n_tokens(s, c3, handles_size as int, 32) == prepend_toks(
                    handles.deep_view(),
                    read_n_tokens(s, cursor as int, (handles_size - k) as int, 32),
                ),
            decreases handles_size - k,
        {
            let ghost acc0 = handles.deep_view();
            let ghost cur0 = cursor as int;
            let h = match read_token(&ts, &mut cursor, 32) {
                Ok(t) => t,
                Err(e) => {
                    return Err(e);
                },
            };
            let ghost hv = h@;
            handles.push(h);
            proof {
                assert(handles.deep_view() =~~= acc0.push(hv));
                let rest = read_n_tokens(s, cursor as int, (handles_size - k - 1) as int, 32);
                assert(read_n_tokens(s, cur0, (handles_size - k) as int, 32) == prepend_toks(
                    seq![hv],
                    rest,
                ));
                if rest is Some {
                    assert(acc0 + (seq![hv] + rest->Some_0.0) =~~= acc0.push(hv)
                        + rest->Some_0.0);
                }
            }
            k += 1;
        }
        proof {
            assert(handles.deep_view() + Seq::<Seq<char>>::empty() =~~= handles.deep_view());
            assert(read_n_tokens(s, c3, handles_size as int, 32) == Some(
                (handles.deep_view(), cursor as int),
            ));
        }

        let assignment_tok = match read_token(&ts, &mut cursor, 4) {
            Ok(t) => t,
            Err(e) => {
                return Err(e);
            },
        };
        let ghost c5 = cursor as int;
        let assignment_size: u64 = match parse_u64(&chars_of(assignment_tok.as_str())) {
            Some(v) => v,
            None => 0,
        };
        if assignment_size > 100 {
            return Err(String::from_str("Invalid number of assignments untokenizing QueryAnswer"));
        }
        let mut assignment: Vec<(String, String)> = Vec::new();
        let mut k: u64 = 0;
        proof {
            assert(pairs_view(assignment@) =~~= Seq::<(Seq<char>, Seq<char>)>::empty());
            assert(prepend_pairs(
                Seq::empty(),
                read_n_pairs(s, c5, assignment_size as int, 100, 32),
            ) == read_n_pairs(s, c5, assignment_size as int, 100, 32));
        }
        while k < assignment_size
            invariant
                ts@ == s,
                k <= assignment_size,
                cursor <= ts@.len(),
                read_n_pairs(s, c5, assignment_size as int, 100, 32) == prepend_pairs(
                    pairs_view(assignment@),
                    read_n_pairs(s, cursor as int, (assignment_size - k) as int, 100, 32),
                ),
            decreases assignment_size - k,
        {
            let ghost acc0 = pairs_view(assignment@);
            let ghost cur0 = cursor as int;
            let label = match read_token(&ts, &mut cursor, 100) {
                Ok(t) => t,
                Err(e) => {
                    return Err(e);
                },
            };
            let handle = match read_token(&ts, &mut cursor, 32) {
                Ok(t) => t,
                Err(e) => {
                    return Err(e);
                },
            };
            let ghost pv = (label@, handle@);
            assignment.push((label, handle));
            proof {
                assert(pairs_view(assignment@) =~~= acc0.push(pv));
                let rest = read_n_pairs(s, cursor as int, (assignment_size - k - 1) as int, 100, 32);
                assert(read_n_pairs(s, cur0, (assignment_size - k) as int, 100, 32)
                    == prepend_pairs(seq![pv], rest));
                if rest is Some {
                    assert(acc0 + (seq![pv] + rest->Some_0.0) =~~= acc0.push(pv)
                        + rest->Some_0.0);
                }
            }
            k += 1;
        }
        proof {
            assert(pairs_view(assignment@) + Seq::<(Seq<char>, Seq<char>)>::empty()
                =~~= pairs_view(assignment@));
            assert(read_n_pairs(s, c5, assignment_size as int, 100, 32) == Some(
                (pairs_view(assignment@), cursor as int),
            ));
        }

        let metta_tok = match read_token(&ts, &mut cursor, 4) {
            Ok(t) => t,
            Err(e) => {
                return Err(e);
            },
        };
        let ghost c7 = cursor as int;
        let metta_size: u64 = match parse_u64(&chars_of(metta_tok.as_str())) {
            Some(v) => v,
            None => 0,
        };
        let mut metta: Vec<(String, String)> = Vec::new();
        let mut k: u64 = 0;
        proof {
            assert(pairs_view(metta@) =~~= Seq::<(Seq<char>, Seq<char>)>::empty());
            assert(prepend_pairs(Seq::empty(), read_n_mappings(s, c7, metta_size as int))
                == read_n_mappings(s, c7, metta_size as int));
        }
        while k < metta_size
            invariant
                ts@ == s,
                k <= metta_size,
                cursor <= ts@.len(),
                read_n_mappings(s, c7, metta_size as int) == prepend_pairs(
                    pairs_view(metta@),
                    read_n_mappings(s, cursor as int, (metta_size - k) as int),
                ),
            decreases metta_size - k,
        {
            let ghost acc0 = pairs_view(metta@);
            let ghost cur0 = cursor as int;
            let handle = match read_token(&ts, &mut cursor, 32) {
                Ok(t) => t,
                Err(e) => {
                    return Err(e);
                },
            };
            let expr = match read_metta_expression(&ts, &mut cursor) {
                Ok(t) => t,
                Err(e) => {
                    return Err(e);
                },
            };
            let ghost pv = (handle@, expr@);
            metta.push((handle, expr));
            proof {
                assert(pairs_view(metta@) =~~= acc0.push(pv));
                let rest = read_n_mappings(s, cursor as int, (metta_size - k - 1) as int);
                assert(read_n_mappings(s, cur0, (metta_size - k) as int) == prepend_pairs(
                    seq![pv],
                    rest,
                ));
                if rest is Some {
                    assert(acc0 + (seq![pv] + rest->Some_0.0) =~~= acc0.push(pv)
                        + rest->Some_0.0);
                }
            }
            k += 1;
        }
        proof {
            assert(pairs_view(metta@) + Seq::<(Seq<char>, Seq<char>)>::empty() =~~= pairs_view(
                metta@,
            ));
            assert(read_n_mappings(s, c7, metta_size as int) == Some(
                (pairs_view(metta@), cursor as int),
            ));
        }

        let mut j: usize = cursor;
        while j < ts.len()
            invariant
                cursor <= j <= ts@.len(),
                ts@ == s,
                forall|m: int| cursor <= m < j ==> is_wsp(#[trigger] s[m]),
            decreases ts@.len() - j,
        {
            let c = ts[j];
            if !(c == ' ' || c == '\t' || c == '\n' || c == '\r') {
                return Err(
                    String::from_str(
                        "Invalid token string - invalid text after QueryAnswer definition",
                    ),
                );
            }
            j += 1;
        }

        let ghost sv = strength@;
        let ghost iv = importance@;
        self.strength = strength;
        self.importance = importance;
        let ghost h0 = self.handles.deep_view();
        let ghost a0 = pairs_view(self.assignment@);
        let ghost m0 = pairs_view(self.metta_expression@);
        proof {
            assert(self.handles.deep_view() =~~= h0 + handles.deep_view().take(0));
            assert(pairs_view(self.assignment@) =~~= a0 + pairs_view(assignment@).take(0));
            assert(pairs_view(self.metta_expression@) =~~= m0 + pairs_view(metta@).take(0));
        }
        let mut i: usize = 0;
        while i < handles.len()
            invariant
                i <= handles@.len(),
                self.handles.deep_view() == h0 + handles.deep_view().take(i as int),
                pairs_view(self.assignment@) == a0,
                pairs_view(self.metta_expression@) == m0,
                self.strength@ == sv,
                self.importance@ == iv,
            decreases handles@.len() - i,
        {
            let ghost before = self.handles.deep_view();
            let h = handles[i].clone();
            let ghost hv = h@;
            proof {
                assert(hv == handles.deep_view()[i as int]);
            }
            self.handles.push(h);
            proof {
                assert(self.handles.deep_view() =~~= before.push(hv));
                assert(self.handles.deep_view() =~~= h0 + handles.deep_view().take(i + 1));
            }
            i += 1;
        }
        proof {
            assert(handles.deep_view().take(i as int) =~~= handles.deep_view());
        }
        let ghost hv_final = self.handles.deep_view();
        let mut i: usize = 0;
        while i < assignment.len()
            invariant
                i <= assignment@.len(),
                pairs_view(self.assignment@) == a0 + pairs_view(assignment@).take(i as int),
                self.handles.deep_view() == hv_final,
                pairs_view(self.metta_expression@) == m0,
                self.strength@ == sv,
                self.importance@ == iv,
            decreases assignment@.len() - i,
        {
            let ghost before = pairs_view(self.assignment@);
            let p = (assignment[i].0.clone(), assignment[i].1.clone());
            let ghost pv = (p.0@, p.1@);
            proof {
                assert(pv == pairs_view(assignment@)[i as int]);
            }
            self.assignment.push(p);
            proof {
                assert(pairs_view(self.assignment@) =~~= before.push(pv));
                assert(pairs_view(self.assignment@) =~~= a0 + pairs_view(assignment@).take(
                    i + 1,
                ));
            }
            i += 1;
        }
        proof {
            assert(pairs_view(assignment@).take(i as int) =~~= pairs_view(assignment@));
        }
        let ghost av_final = pairs_view(self.assignment@);
        let mut i: usize = 0;
        while i < metta.len()
            invariant
                i <= metta@.len(),
                pairs_view(self.metta_expression@) == m0 + pairs_view(metta@).take(i as int),
                self.handles.deep_view() == hv_final,
                pairs_view(self.assignment@) == av_final,
                self.strength@ == sv,
                self.importance@ == iv,
            decreases metta@.len() - i,
        {
            let ghost before = pairs_view(self.metta_expression@);
            let p = (metta[i].0.clone(), metta[i].1.clone());
            let ghost pv = (p.0@, p.1@);
            proof {
                assert(pv == pairs_view(metta@)[i as int]);
            }
            self.metta_expression.push(p);
            proof {
                assert(pairs_view(self.metta_expression@) =~~= before.push(pv));
                assert(pairs_view(self.metta_expression@) =~~= m0 + pairs_view(metta@).take(
                    i + 1,
                ));
            }
            i += 1;
        }
        proof {
            assert(pairs_view(metta@).take(i as int) =~~= pairs_view(metta@));
        }
        Ok(())
    }
}

/// The first position at or after `i` holding a non-whitespace character.
pub open spec fn first_non_wsp(s: Seq<char>, i: int) -> int
    decreases s.len() - i,
{
    if i < 0 {
        0
    } else if i >= s.len() || !is_wsp(s[i]) {
        i
    } else {
        first_non_wsp(s, i + 1)
    }
}

/// The position after the last non-whitespace character before `i`.
pub open spec fn end_non_wsp(s: Seq<char>, i: int) -> int
    decreases i,
{
    if i <= 0 {
        0
    } else if i > s.len() {
        s.len() as int
    } else if !is_wsp(s[i - 1]) {
        i
    } else {
        end_non_wsp(s, i - 1)
    }
}

/// `s` with leading and trailing whitespace removed.
pub open spec fn trim_view(s: Seq<char>) -> Seq<char> {
    let a = first_non_wsp(s, 0);
    let b = end_non_wsp(s, s.len() as int);
    if a >= b {
        Seq::empty()
    } else {
        s.subrange(a, b)
    }
}

/// Removes leading and trailing whitespace.
#[verifier::loop_isolation(false)]
pub fn trim_wsp(s: &str) -> (r: String)
    ensures
        r@ == trim_view(s@),
{
    let cs = chars_of(s);
    let n = cs.len();
    let mut a: usize = 0;
    while a < n && (cs[a] == ' ' || cs[a] == '\t' || cs[a] == '\n' || cs[a] == '\r')
        invariant
            0 <= a <= n,
            n == cs@.len(),
            first_non_wsp(s@, 0) == first_non_wsp(s@, a as int),
        decreases n - a,
    {
        a += 1;
    }
    proof {
        assert(first_non_wsp(s@, a as int) == a);
    }
    let mut b: usize = n;
    while b > a && (cs[b - 1] == ' ' || cs[b - 1] == '\t' || cs[b - 1] == '\n' || cs[b - 1]
        == '\r')
        invariant
            a <= b <= n,
            end_non_wsp(s@, n as int) == end_non_wsp(s@, b as int),
        decreases b,
    {
        b -= 1;
    }
    proof {
        if b > a {
            assert(end_non_wsp(s@, b as int) == b);
        } else {
            assert(b == a);
            lemma_end_non_wsp(s@, b as int);
        }
    }
    let mut out: Vec<char> = Vec::new();
    let mut j: usize = a;
    while j < b
        invariant
            a <= j <= b,
            b <= n == cs@.len(),
            out@ == s@.subrange(a as int, j as int),
        decreases b - j,
    {
        out.push(cs[j]);
        proof {
            assert(out@ =~~= s@.subrange(a as int, j + 1));
        }
        j += 1;
    }
    proof {
        if a >= b {
            assert(out@ =~~= Seq::<char>::empty());
            assert(end_non_wsp(s@, n as int) <= a);
        } else {
            assert(out@ =~~= s@.subrange(a as int, b as int));
        }
    }
    string_of_chars(&out)
}

/// `end_non_wsp` never exceeds its starting position.
pub proof fn lemma_end_non_wsp(s: Seq<char>, i: int)
    ensures
        end_non_wsp(s, i) <= i || i < 0,
    decreases i,
{
    if i > 0 && i <= s.len() && is_wsp(s[i - 1]) {
        lemma_end_non_wsp(s, i - 1);
    }
}

/// The expression mapped to `handle` by the last matching entry, if any.
fn metta_lookup(v: &Vec<(String, String)>, handle: &str) -> (r: Option<String>)
    ensures
        r matches Some(e) ==> crate::assoc::lookup_last(pairs_view(v@), handle@) == Some(e@),
        r is None ==> crate::assoc::lookup_last(pairs_view(v@), handle@) is None,
{
    let ghost pv = pairs_view(v@);
    let mut i: usize = v.len();
    proof {
        assert(pv.take(i as int) =~~= pv);
    }
    while i > 0
        invariant
            i <= v@.len(),
            pv == pairs_view(v@),
            crate::assoc::lookup_last(pv, handle@) == crate::assoc::lookup_last(
                pv.take(i as int),
                handle@,
            ),
        decreases i,
    {
        proof {
            assert(pv[i - 1] == (v@[i - 1].0@, v@[i - 1].1@));
            assert(pv.take(i as int).last() == pv[i - 1]);
            assert(pv.take(i as int).drop_last() =~~= pv.take(i - 1));
        }
        if crate::text::str_eq(v[i - 1].0.as_str(), handle) {
            return Some(v[i - 1].1.clone());
        }
        i -= 1;
    }
    proof {
        assert(pv.take(0) =~~= Seq::<(Seq<char>, Seq<char>)>::empty());
    }
    None
}

/// The bindings a parsed answer yields: each assignment label bound, in
/// order, to the mapped expression (trimmed) when `populate` is set and the
/// handle is mapped, to nothing when `populate` is set and it is not, and
/// to the handle itself otherwise.
pub open spec fn answer_bindings(
    acc: Seq<(Seq<char>, AtomView)>,
    asg: Seq<(Seq<char>, Seq<char>)>,
    metta: Seq<(Seq<char>, Seq<char>)>,
    populate: bool,
) -> Seq<(Seq<char>, AtomView)>
    decreases asg.len(),
{
    if asg.len() == 0 {
        acc
    } else {
        let key = asg[0].0;
        let value = asg[0].1;
        let acc2 = if populate {
            match crate::assoc::lookup_last(metta, value) {
                Some(expr) => crate::assoc::assoc_insert(
                    acc,
                    key,
                    AtomView::Symbol(trim_view(expr)),
                ),
                None => acc,
            }
        } else {
            crate::assoc::assoc_insert(acc, key, AtomView::Symbol(value))
        };
        answer_bindings(acc2, asg.drop_first(), metta, populate)
    }
}

/// Decodes a query-answer string into bindings.  With
/// `populate_metta_mapping` set, each assignment's handle is resolved
/// through the answer's expression mappings and the trimmed expression is
/// bound; otherwise the handle itself is bound.  An error reports the
/// protocol violation that stopped the decoding.
#[verifier::loop_isolation(false)]
pub fn parse_query_answer(query_answer_str: &str, populate_metta_mapping: bool) -> (r: Result<
    Bindings,
    String,
>)
    ensures
        r is Ok <==> parse_answer(query_answer_str@) is Some,
        r matches Ok(b) ==> {
            &&& parse_answer(query_answer_str@) matches Some(v)
            &&& b@ == answer_bindings(
                Seq::empty(),
                v.assignment,
                v.metta,
                populate_metta_mapping,
            )
        },
{
    let mut qa = QueryAnswer::new();
    match qa.untokenize(query_answer_str) {
        Ok(_) => {},
        Err(e) => {
            return Err(e);
        },
    }
    let ghost asg = pairs_view(qa.assignment@);
    let ghost metta = pairs_view(qa.metta_expression@);
    let mut b = Bindings::new();
    let mut i: usize = 0;
    proof {
        assert(asg.skip(0) =~~= asg);
    }
    while i < qa.assignment.len()
        invariant
            i <= qa.assignment@.len(),
            asg == pairs_view(qa.assignment@),
            metta == pairs_view(qa.metta_expression@),
            asg.len() == qa.assignment@.len(),
            answer_bindings(Seq::empty(), asg, metta, populate_metta_mapping) == answer_bindings(
                b@,
                asg.skip(i as int),
                metta,
                populate_metta_mapping,
            ),
        decreases qa.assignment@.len() - i,
    {
        proof {
            assert(asg[i as int] == (qa.assignment@[i as int].0@, qa.assignment@[i as int].1@));
            assert(asg.skip(i as int)[0] == asg[i as int]);
            assert(asg.skip(i as int).drop_first() =~~= asg.skip(i + 1));
        }
        let key = qa.assignment[i].0.clone();
        let value = &qa.assignment[i].1;
        if populate_metta_mapping {
            match metta_lookup(&qa.metta_expression, value.as_str()) {
                Some(expr) => {
                    let t = trim_wsp(expr.as_str());
                    b.add_var_binding(key, Atom::sym(t));
                },
                None => {},
            }
        } else {
            b.add_var_binding(key, Atom::sym(value.clone()));
        }
        i += 1;
    }
    proof {
        assert(asg.skip(i as int).len() == 0);
    }
    Ok(b)
}

/// Tokens joined by single spaces.
pub open spec fn join_sp(toks: Seq<Seq<char>>) -> Seq<char>
    decreases toks.len(),
{
    if toks.len() == 0 {
        Seq::empty()
    } else if toks.len() == 1 {
        toks[0]
    } else {
        toks[0] + seq![' '] + join_sp(toks.drop_first())
    }
}

proof fn lemma_join_sp_push(toks: Seq<Seq<char>>, x: Seq<char>)
    requires
        toks.len() > 0,
    ensures
        join_sp(toks.push(x)) == join_sp(toks) + seq![' '] + x,
    decreases toks.len(),
{
    if toks.len() == 1 {
        assert(toks.push(x)[0] == toks[0]);
        assert(toks.push(x).drop_first() =~~= seq![x]);
        assert(join_sp(seq![x]) =~~= x);
        assert(join_sp(toks.push(x)) =~~= join_sp(toks) + seq![' '] + x);
    } else {
        lemma_join_sp_push(toks.drop_first(), x);
        assert(toks.push(x)[0] == toks[0]);
        assert(toks.push(x).drop_first() =~~= toks.drop_first().push(x));
        assert(join_sp(toks.push(x)) =~~= join_sp(toks) + seq![' '] + x);
    }
}

/// The wire tokens of a query answer: strength, importance, the counted
/// handles, the counted assignment pairs and the counted mappings.
pub open spec fn answer_tokens(v: AnswerView) -> Seq<Seq<char>> {
    seq![v.strength, v.importance, dec_str(v.handles.len())] + v.handles + seq![
        dec_str(v.assignment.len()),
    ] + flat_pairs(v.assignment) + seq![dec_str(v.metta.len())] + flat_pairs(v.metta)
}

/// Label/handle pairs flattened in order.
pub open spec fn flat_pairs(s: Seq<(Seq<char>, Seq<char>)>) -> Seq<Seq<char>>
    decreases s.len(),
{
    if s.len() == 0 {
        Seq::empty()
    } else {
        seq![s[0].0, s[0].1] + flat_pairs(s.drop_first())
    }
}

proof fn lemma_flat_pairs_push(s: Seq<(Seq<char>, Seq<char>)>, e: (Seq<char>, Seq<char>))
    ensures
        flat_pairs(s.push(e)) == flat_pairs(s) + seq![e.0, e.1],
    decreases s.len(),
{
    if s.len() == 0 {
        assert(s.push(e)[0] == e);
        assert(s.push(e).drop_first() =~~= Seq::<(Seq<char>, Seq<char>)>::empty());
        assert(flat_pairs(Seq::<(Seq<char>, Seq<char>)>::empty()) =~~= Seq::<Seq<char>>::empty());
        assert(flat_pairs(s.push(e)) =~~= flat_pairs(s) + seq![e.0, e.1]);
    } else {
        lemma_flat_pairs_push(s.drop_first(), e);
        assert(s.push(e)[0] == s[0]);
        assert(s.push(e).drop_first() =~~= s.drop_first().push(e));
        assert(flat_pairs(s.push(e)) =~~= flat_pairs(s) + seq![e.0, e.1]);
    }
}

impl QueryAnswer {
    /// The wire form of this answer: its tokens joined by single spaces.
    #[verifier::loop_isolation(false)]
    #[verifier::rlimit(30)]
    pub fn tokenize(&self) -> (r: String)
        ensures
            r@ == join_sp(answer_tokens(self@)),
    {
        let mut toks: Vec<String> = Vec::new();
        crate::helpers::push_string(&mut toks, self.strength.clone());
        crate::helpers::push_string(&mut toks, self.importance.clone());
        crate::helpers::push_string(&mut toks, u64_to_string(self.handles.len() as u64));
        crate::helpers::extend_strings(&mut toks, &self.handles);
        proof {
            assert(toks.deep_view() =~~= seq![
                self@.strength,
                self@.importance,
                dec_str(self@.handles.len()),
            ] + self@.handles);
        }
        crate::helpers::push_string(&mut toks, u64_to_string(self.assignment.len() as u64));
        let ghost h1 = toks.deep_view();
        let ghost ap = pairs_view(self.assignment@);
        let mut i: usize = 0;
        proof {
            assert(ap.take(0) =~~= Seq::<(Seq<char>, Seq<char>)>::empty());
            assert(flat_pairs(ap.take(0)) =~~= Seq::<Seq<char>>::empty());
            assert(toks.deep_view() =~~= h1 + flat_pairs(ap.take(0)));
        }
        while i < self.assignment.len()
            invariant
                i <= self.assignment@.len(),
                ap.len() == self.assignment@.len(),
                toks.deep_view() == h1 + flat_pairs(ap.take(i as int)),
            decreases self.assignment@.len() - i,
        {
            let ghost before = toks.deep_view();
            proof {
                assert(ap[i as int] == (self.assignment@[i as int].0@,
                self.assignment@[i as int].1@));
            }
            crate::helpers::push_string(&mut toks, self.assignment[i].0.clone());
            crate::helpers::push_string(&mut toks, self.assignment[i].1.clone());
            proof {
                lemma_flat_pairs_push(ap.take(i as int), ap[i as int]);
                assert(ap.take(i + 1) =~~= ap.take(i as int).push(ap[i as int]));
                assert(toks.deep_view() =~~= before + seq![ap[i as int].0, ap[i as int].1]);
                assert(toks.deep_view() =~~= h1 + flat_pairs(ap.take(i + 1)));
            }
            i += 1;
        }
        proof {
            assert(ap.take(i as int) =~~= ap);
        }
        crate::helpers::push_string(&mut toks, u64_to_string(self.metta_expression.len() as u64));
        let ghost h2 = toks.deep_view();
        let ghost mp = pairs_view(self.metta_expression@);
        let mut i: usize = 0;
        proof {
            assert(mp.take(0) =~~= Seq::<(Seq<char>, Seq<char>)>::empty());
            assert(flat_pairs(mp.take(0)) =~~= Seq::<Seq<char>>::empty());
            assert(toks.deep_view() =~~= h2 + flat_pairs(mp.take(0)));
        }
        while i < self.metta_expression.len()
            invariant
                i <= self.metta_expression@.len(),
                mp.len() == self.metta_expression@.len(),
                toks.deep_view() == h2 + flat_pairs(mp.take(i as int)),
            decreases self.metta_expression@.len() - i,
        {
            let ghost before = toks.deep_view();
            proof {
                assert(mp[i as int] == (self.metta_expression@[i as int].0@,
                self.metta_expression@[i as int].1@));
            }
            crate::helpers::push_string(&mut toks, self.metta_expression[i].0.clone());
            crate::helpers::push_string(&mut toks, self.metta_expression[i].1.clone());
            proof {
                lemma_flat_pairs_push(mp.take(i as int), mp[i as int]);
                assert(mp.take(i + 1) =~~= mp.take(i as int).push(mp[i as int]));
                assert(toks.deep_view() =~~= before + seq![mp[i as int].0, mp[i as int].1]);
                assert(toks.deep_view() =~~= h2 + flat_pairs(mp.take(i + 1)));
            }
            i += 1;
        }
        proof {
            assert(mp.take(i as int) =~~= mp);
            assert(toks.deep_view() =~~= answer_tokens(self@));
        }
        let ghost tv = toks.deep_view();
        let mut out = toks[0].clone();
        let mut j: usize = 1;
        proof {
            assert(tv.take(1) =~~= seq![tv[0]]);
            assert(join_sp(tv.take(1)) =~~= tv[0]);
        }
        while j < toks.len()
            invariant
                1 <= j <= toks@.len(),
                tv == toks.deep_view(),
                tv.len() == toks@.len(),
                tv.len() >= 1,
                out@ == join_sp(tv.take(j as int)),
            decreases toks@.len() - j,
        {
            proof {
                assert(tv[j as int] == toks@[j as int]@);
            }
            let mut out2 = out;
            crate::text::push_char(&mut out2, ' ');
            let out3 = out2.concat(toks[j].as_str());
            proof {
                lemma_join_sp_push(tv.take(j as int), tv[j as int]);
                assert(tv.take(j + 1) =~~= tv.take(j as int).push(tv[j as int]));
                assert(out3@ =~~= join_sp(tv.take(j + 1)));
            }
            out = out3;
            j += 1;
        }
        proof {
            assert(tv.take(j as int) =~~= tv);
        }
        out
    }
}

} // verus!
