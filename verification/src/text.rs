//! Character-level text utilities: conversion between `String` and
//! `Vec<char>`, decimal formatting and parsing, and the textual shapes
//! (boolean, unsigned, signed, floating-point) that the property codec
//! distinguishes.

use vstd::prelude::*;

verus! {

/// Relies on `String::push`: appends one character to the string.
#[verifier::external_body]
pub fn push_char(s: &mut String, c: char)
    ensures
        final(s)@ == old(s)@.push(c),
{
    s.push(c);
}

/// The characters of `s`, in order.
pub fn chars_of(s: &str) -> (r: Vec<char>)
    ensures
        r@ == s@,
{
    let n = s.unicode_len();
    let mut r: Vec<char> = Vec::new();
    let mut i: usize = 0;
    while i < n
        invariant
            n == s@.len(),
            i <= n,
            r@ == s@.take(i as int),
        decreases n - i,
    {
        let c = s.get_char(i);
        r.push(c);
        proof {
            assert(r@ =~= s@.take(i + 1));
        }
        i += 1;
    }
    proof {
        assert(r@ =~= s@);
    }
    r
}

/// A `String` holding exactly the given characters.
pub fn string_of_chars(cs: &Vec<char>) -> (r: String)
    ensures
        r@ == cs@,
{
    let mut r = String::new();
    let mut i: usize = 0;
    while i < cs.len()
        invariant
            i <= cs@.len(),
            r@ == cs@.take(i as int),
        decreases cs@.len() - i,
    {
        push_char(&mut r, cs[i]);
        proof {
            assert(r@ =~= cs@.take(i + 1));
        }
        i += 1;
    }
    proof {
        assert(r@ =~= cs@);
    }
    r
}

/// `a` followed by `b`.
pub fn str_concat(a: &str, b: &str) -> (r: String)
    ensures
        r@ == a@ + b@,
{
    let s = String::from_str(a);
    s.concat(b)
}

/// Whether two string slices hold the same characters.
pub fn str_eq(a: &str, b: &str) -> (r: bool)
    ensures
        r == (a@ == b@),
{
    let sa = String::from_str(a);
    let sb = String::from_str(b);
    sa == sb
}

/// The decimal digit character for a value below ten.
pub open spec fn dec_digit(d: int) -> char {
    ((d + 48) as u8) as char
}

/// The decimal text of a natural number, most significant digit first.
pub open spec fn dec_str(n: nat) -> Seq<char>
    decreases n,
{
    if n < 10 {
        seq![dec_digit(n as int)]
    } else {
        dec_str(n / 10).push(dec_digit((n % 10) as int))
    }
}

/// The decimal text of an integer: a minus sign before the magnitude when
/// negative.
pub open spec fn int_str(v: int) -> Seq<char> {
    if v >= 0 {
        dec_str(v as nat)
    } else {
        seq!['-'] + dec_str((-v) as nat)
    }
}

fn digit_char(d: u8) -> (c: char)
    requires
        d < 10,
    ensures
        c == dec_digit(d as int),
{
    (d + 48) as char
}

/// The decimal text of `n`.
pub fn u64_to_string(n: u64) -> (r: String)
    ensures
        r@ == dec_str(n as nat),
    decreases n,
{
    if n < 10 {
        let mut s = String::new();
        push_char(&mut s, digit_char(n as u8));
        proof {
            assert(s@ =~= dec_str(n as nat));
        }
        s
    } else {
        let mut s = u64_to_string(n / 10);
        push_char(&mut s, digit_char((n % 10) as u8));
        s
    }
}

/// The decimal text of `v`, with a minus sign when negative.
pub fn i64_to_string(v: i64) -> (r: String)
    ensures
        r@ == int_str(v as int),
{
    if v >= 0 {
        u64_to_string(v as u64)
    } else {
        let magnitude: u64 = ((-(v as i128)) as u64);
        let mut s = String::new();
        push_char(&mut s, '-');
        let digits = u64_to_string(magnitude);
        let r = s.concat(digits.as_str());
        proof {
            assert(r@ =~= int_str(v as int));
        }
        r
    }
}

/// Whether `c` is a decimal digit.
pub open spec fn is_dec_digit(c: char) -> bool {
    48 <= c as u32 <= 57
}

/// The numeric value of a digit character.
pub open spec fn digit_val(c: char) -> int {
    c as u32 - 48
}

/// Whether every character of `s` is a decimal digit.
pub open spec fn all_digits(s: Seq<char>) -> bool {
    forall|i: int| 0 <= i < s.len() ==> is_dec_digit(#[trigger] s[i])
}

/// The value of a digit string, most significant digit first.
pub open spec fn dec_val(s: Seq<char>) -> int
    decreases s.len(),
{
    if s.len() == 0 {
        0
    } else {
        dec_val(s.drop_last()) * 10 + digit_val(s.last())
    }
}

fn exec_is_dec_digit(c: char) -> (r: bool)
    ensures
        r == is_dec_digit(c),
{
    '0' <= c && c <= '9'
}

proof fn lemma_dec_val_bounds(s: Seq<char>)
    requires
        all_digits(s),
    ensures
        dec_val(s) >= 0,
        s.len() > 0 ==> dec_val(s) >= dec_val(s.drop_last()),
    decreases s.len(),
{
    if s.len() > 0 {
        assert(all_digits(s.drop_last()));
        lemma_dec_val_bounds(s.drop_last());
        assert(digit_val(s.last()) >= 0);
    }
}

/// Appending digits never shrinks the value of a digit string.
proof fn lemma_dec_val_prefix(s: Seq<char>, i: int)
    requires
        all_digits(s),
        0 <= i <= s.len(),
    ensures
        dec_val(s.take(i)) <= dec_val(s),
    decreases s.len() - i,
{
    if i < s.len() {
        lemma_dec_val_prefix(s, i + 1);
        let t = s.take(i + 1);
        assert(t.drop_last() =~= s.take(i));
        assert(all_digits(t));
        lemma_dec_val_bounds(t);
    } else {
        assert(s.take(i) =~= s);
    }
}

/// The value of the digit characters of `s` starting at `from`, or `None`
/// when `s` has no digits there, holds a non-digit, or its value exceeds
/// `u64::MAX`.
pub fn parse_digits(s: &Vec<char>, from: usize) -> (r: Option<u64>)
    requires
        from <= s@.len(),
    ensures
        r matches Some(v) ==> {
            &&& all_digits(s@.skip(from as int))
            &&& s@.len() > from
            &&& v == dec_val(s@.skip(from as int))
        },
        r is None ==> !(all_digits(s@.skip(from as int)) && s@.len() > from && dec_val(
            s@.skip(from as int),
        ) <= u64::MAX),
{
    let ghost d = s@.skip(from as int);
    if from == s.len() {
        return None;
    }
    let mut v: u64 = 0;
    let mut i: usize = from;
    while i < s.len()
        invariant
            from <= i <= s@.len(),
            d == s@.skip(from as int),
            all_digits(d.take(i - from)),
            v == dec_val(d.take(i - from)),
        decreases s@.len() - i,
    {
        let c = s[i];
        if !exec_is_dec_digit(c) {
            proof {
                assert(d[i - from] == c);
                assert(!all_digits(d));
            }
            return None;
        }
        proof {
            assert(c as u32 >= 48);
        }
        let dv: u64 = (c as u32 as u64) - 48;
        proof {
            let t = d.take(i + 1 - from);
            assert(t.drop_last() =~= d.take(i - from));
            assert(t.last() == c);
            assert(all_digits(t));
        }
        if v > (u64::MAX - dv) / 10 {
            proof {
                let t = d.take(i + 1 - from);
                vstd::arithmetic::div_mod::lemma_fundamental_div_mod((u64::MAX - dv) as int, 10);
                assert(dec_val(t) == v * 10 + dv);
                assert(v * 10 + dv > u64::MAX);
                if all_digits(d) {
                    lemma_dec_val_prefix(d, i + 1 - from);
                }
            }
            return None;
        }
        v = v * 10 + dv;
        i += 1;
    }
    proof {
        assert(d.take(i - from) =~= d);
    }
    Some(v)
}

/// Whether `s` is the decimal text of a `u64`: an optional `+` sign, then
/// digits whose value fits.
pub open spec fn is_u64_text(s: Seq<char>) -> bool {
    let d = if s.len() > 0 && s[0] == '+' {
        s.drop_first()
    } else {
        s
    };
    &&& d.len() > 0
    &&& all_digits(d)
    &&& dec_val(d) <= u64::MAX
}

/// The value of a `u64` text.
pub open spec fn u64_text_val(s: Seq<char>) -> int {
    if s.len() > 0 && s[0] == '+' {
        dec_val(s.drop_first())
    } else {
        dec_val(s)
    }
}

/// The value of a `u64` text lies in the machine range.
pub proof fn lemma_u64_text_val_bounds(s: Seq<char>)
    requires
        is_u64_text(s),
    ensures
        0 <= u64_text_val(s) <= u64::MAX,
{
    if s.len() > 0 && s[0] == '+' {
        lemma_dec_val_bounds(s.drop_first());
    } else {
        lemma_dec_val_bounds(s);
    }
}

/// Parses `s` as a `u64`, accepting an optional leading `+`.
pub fn parse_u64(s: &Vec<char>) -> (r: Option<u64>)
    ensures
        r is Some <==> is_u64_text(s@),
        r matches Some(v) ==> v == u64_text_val(s@),
{
    if s.len() > 0 && s[0] == '+' {
        proof {
            assert(s@.skip(1) =~= s@.drop_first());
        }
        parse_digits(s, 1)
    } else {
        proof {
            assert(s@.skip(0) =~= s@);
        }
        parse_digits(s, 0)
    }
}

/// Whether `s` is the decimal text of an `i64`: an optional sign, then
/// digits whose value fits the signed range.
pub open spec fn is_i64_text(s: Seq<char>) -> bool {
    if s.len() > 0 && s[0] == '-' {
        let d = s.drop_first();
        d.len() > 0 && all_digits(d) && dec_val(d) <= i64::MAX + 1
    } else {
        let d = if s.len() > 0 && s[0] == '+' {
            s.drop_first()
        } else {
            s
        };
        d.len() > 0 && all_digits(d) && dec_val(d) <= i64::MAX
    }
}

/// The value of an `i64` text.
pub open spec fn i64_text_val(s: Seq<char>) -> int {
    if s.len() > 0 && s[0] == '-' {
        -dec_val(s.drop_first())
    } else {
        u64_text_val(s)
    }
}

/// Parses `s` as an `i64`, accepting an optional leading sign.
pub fn parse_i64(s: &Vec<char>) -> (r: Option<i64>)
    ensures
        r is Some <==> is_i64_text(s@),
        r matches Some(v) ==> v == i64_text_val(s@),
{
    if s.len() > 0 && s[0] == '-' {
        proof {
            assert(s@.skip(1) =~= s@.drop_first());
        }
        match parse_digits(s, 1) {
            Some(m) => {
                if m <= i64::MAX as u64 {
                    Some(-(m as i64))
                } else if m == (i64::MAX as u64) + 1 {
                    Some(i64::MIN)
                } else {
                    None
                }
            },
            None => None,
        }
    } else if s.len() > 0 && s[0] == '+' {
        proof {
            assert(s@.skip(1) =~= s@.drop_first());
        }
        match parse_digits(s, 1) {
            Some(m) => if m <= i64::MAX as u64 {
                Some(m as i64)
            } else {
                None
            },
            None => None,
        }
    } else {
        proof {
            assert(s@.skip(0) =~= s@);
        }
        match parse_digits(s, 0) {
            Some(m) => if m <= i64::MAX as u64 {
                Some(m as i64)
            } else {
                None
            },
            None => None,
        }
    }
}

/// Whether `s` is exactly `true` or `false`.
pub open spec fn is_bool_text(s: Seq<char>) -> bool {
    s == "true"@ || s == "false"@
}

/// A digit character carries the digit it was made from.
pub proof fn lemma_digit_val(d: int)
    requires
        0 <= d < 10,
    ensures
        digit_val(dec_digit(d)) == d,
        is_dec_digit(dec_digit(d)),
{
    let b = (d + 48) as u8;
    assert(b == d + 48);
    let c = b as char;
    assert(c as u32 == d + 48);
}

/// The decimal text of a natural number is one or more digits, and starts
/// with neither sign character.
pub proof fn lemma_dec_str_digits(n: nat)
    ensures
        dec_str(n).len() >= 1,
        all_digits(dec_str(n)),
    decreases n,
{
    if n < 10 {
        assert(is_dec_digit(dec_str(n)[0]));
    } else {
        lemma_dec_str_digits(n / 10);
        let s = dec_str(n);
        assert forall|i: int| 0 <= i < s.len() implies is_dec_digit(#[trigger] s[i]) by {
            if i < s.len() - 1 {
                assert(s[i] == dec_str(n / 10)[i]);
            }
        }
    }
}

/// Parsing the decimal text of a natural number gives the number back.
pub proof fn lemma_dec_val_dec_str(n: nat)
    ensures
        dec_val(dec_str(n)) == n,
    decreases n,
{
    if n < 10 {
        lemma_digit_val(n as int);
        let s = dec_str(n);
        assert(s.drop_last() =~= Seq::<char>::empty());
        assert(dec_val(s) == dec_val(s.drop_last()) * 10 + digit_val(s.last()));
        assert(dec_val(s.drop_last()) == 0);
        assert(digit_val(s.last()) == n);
    } else {
        lemma_dec_val_dec_str(n / 10);
        lemma_digit_val((n % 10) as int);
        let s = dec_str(n);
        assert(s.len() > 0);
        assert(s.last() == dec_digit((n % 10) as int));
        assert(s.drop_last() =~= dec_str(n / 10));
        assert(dec_val(s) == dec_val(s.drop_last()) * 10 + digit_val(s.last()));
        assert(dec_val(s.drop_last()) == n / 10);
        assert(digit_val(s.last()) == n % 10);
        vstd::arithmetic::div_mod::lemma_fundamental_div_mod(n as int, 10);
        assert(n == (n / 10) * 10 + n % 10);
    }
}

/// Whether `c` is `k` up to ASCII case, where `k` is a lowercase letter.
pub open spec fn is_ci(c: char, k: char) -> bool {
    c == k || c as u32 + 32 == k as u32
}

/// Whether the characters of `s` from `from` on spell `kw` up to ASCII
/// case, where `kw` is lowercase.
pub open spec fn is_keyword_ci(s: Seq<char>, from: int, kw: Seq<char>) -> bool {
    &&& s.len() - from == kw.len()
    &&& forall|j: int| 0 <= j < kw.len() ==> is_ci(s[from + j], #[trigger] kw[j])
}

/// The number of consecutive decimal digits of `s` starting at `from`.
pub open spec fn count_digits(s: Seq<char>, from: int) -> int
    decreases s.len() - from,
{
    if 0 <= from < s.len() && is_dec_digit(s[from]) {
        1 + count_digits(s, from + 1)
    } else {
        0
    }
}

/// Whether `s` from `from` on is an optional sign followed by one or more
/// digits reaching the end.
pub open spec fn is_sign_digits(s: Seq<char>, from: int) -> bool {
    let q = if from < s.len() && (s[from] == '+' || s[from] == '-') {
        from + 1
    } else {
        from
    };
    &&& q < s.len()
    &&& count_digits(s, q) == s.len() - q
}

/// Whether `s` from `p` on is empty or a complete exponent part.
pub open spec fn exp_ok(s: Seq<char>, p: int) -> bool {
    p == s.len() || ((s[p] == 'e' || s[p] == 'E') && is_sign_digits(s, p + 1))
}

/// Whether `s` is an unsigned floating-point number body: digits with an
/// optional point and fraction, or a point with a fraction, each with an
/// optional exponent.
pub open spec fn is_number_body(s: Seq<char>) -> bool {
    let n1 = count_digits(s, 0);
    if n1 > 0 {
        if n1 == s.len() {
            true
        } else if s[n1] == '.' {
            exp_ok(s, n1 + 1 + count_digits(s, n1 + 1))
        } else {
            exp_ok(s, n1)
        }
    } else {
        &&& s.len() > 0
        &&& s[0] == '.'
        &&& count_digits(s, 1) > 0
        &&& exp_ok(s, 1 + count_digits(s, 1))
    }
}

/// Whether `s` spells infinity or not-a-number, case-insensitively.
pub open spec fn is_inf_nan_body(s: Seq<char>) -> bool {
    ||| is_keyword_ci(s, 0, seq!['i', 'n', 'f'])
    ||| is_keyword_ci(s, 0, seq!['i', 'n', 'f', 'i', 'n', 'i', 't', 'y'])
    ||| is_keyword_ci(s, 0, seq!['n', 'a', 'n'])
}

/// Whether `s` is the text of a floating-point number: an optional sign,
/// then a number body or an infinity or not-a-number keyword.
pub open spec fn is_float_text(s: Seq<char>) -> bool {
    let t = if s.len() > 0 && (s[0] == '+' || s[0] == '-') {
        s.drop_first()
    } else {
        s
    };
    is_inf_nan_body(t) || is_number_body(t)
}

/// Counts the consecutive decimal digits of `s` starting at `from`.
fn exec_count_digits(s: &Vec<char>, from: usize) -> (r: usize)
    requires
        from <= s@.len(),
    ensures
        r == count_digits(s@, from as int),
        from + r <= s@.len(),
{
    let mut i: usize = from;
    while i < s.len() && exec_is_dec_digit(s[i])
        invariant
            from <= i <= s@.len(),
            count_digits(s@, from as int) == i - from + count_digits(s@, i as int),
        decreases s@.len() - i,
    {
        i += 1;
    }
    i - from
}

fn exec_is_ci(c: char, k: char) -> (r: bool)
    ensures
        r == is_ci(c, k),
{
    if c == k {
        true
    } else {
        (c as u32) + 32 == k as u32
    }
}

fn exec_is_sign_digits(s: &Vec<char>, from: usize) -> (r: bool)
    requires
        from <= s@.len(),
    ensures
        r == is_sign_digits(s@, from as int),
{
    let q: usize = if from < s.len() && (s[from] == '+' || s[from] == '-') {
        from + 1
    } else {
        from
    };
    if q >= s.len() {
        return false;
    }
    exec_count_digits(s, q) == s.len() - q
}

fn exec_exp_ok(s: &Vec<char>, p: usize) -> (r: bool)
    requires
        p <= s@.len(),
    ensures
        r == exp_ok(s@, p as int),
{
    if p == s.len() {
        true
    } else if s[p] == 'e' || s[p] == 'E' {
        exec_is_sign_digits(s, p + 1)
    } else {
        false
    }
}

fn exec_is_inf_nan_body(s: &Vec<char>) -> (r: bool)
    ensures
        r == is_inf_nan_body(s@),
{
    if s.len() == 3 {
        let inf = exec_is_ci(s[0], 'i') && exec_is_ci(s[1], 'n') && exec_is_ci(s[2], 'f');
        let nan = exec_is_ci(s[0], 'n') && exec_is_ci(s[1], 'a') && exec_is_ci(s[2], 'n');
        proof {
            let kw_inf = seq!['i', 'n', 'f'];
            let kw_nan = seq!['n', 'a', 'n'];
            assert(inf == is_keyword_ci(s@, 0, kw_inf)) by {
                if inf {
                    assert forall|j: int| 0 <= j < 3 implies is_ci(s@[j], kw_inf[j]) by {
                        assert(kw_inf[0] == 'i' && kw_inf[1] == 'n' && kw_inf[2] == 'f');
                    }
                }
            }
            assert(nan == is_keyword_ci(s@, 0, kw_nan)) by {
                if nan {
                    assert forall|j: int| 0 <= j < 3 implies is_ci(s@[j], kw_nan[j]) by {
                        assert(kw_nan[0] == 'n' && kw_nan[1] == 'a' && kw_nan[2] == 'n');
                    }
                }
            }
            assert(!is_keyword_ci(s@, 0, seq!['i', 'n', 'f', 'i', 'n', 'i', 't', 'y']));
        }
        inf || nan
    } else if s.len() == 8 {
        let r = exec_is_ci(s[0], 'i') && exec_is_ci(s[1], 'n') && exec_is_ci(s[2], 'f')
            && exec_is_ci(s[3], 'i') && exec_is_ci(s[4], 'n') && exec_is_ci(s[5], 'i')
            && exec_is_ci(s[6], 't') && exec_is_ci(s[7], 'y');
        proof {
            let kw = seq!['i', 'n', 'f', 'i', 'n', 'i', 't', 'y'];
            assert(r == is_keyword_ci(s@, 0, kw)) by {
                if r {
                    assert forall|j: int| 0 <= j < 8 implies is_ci(s@[j], kw[j]) by {
                        assert(kw[0] == 'i' && kw[1] == 'n' && kw[2] == 'f' && kw[3] == 'i'
                            && kw[4] == 'n' && kw[5] == 'i' && kw[6] == 't' && kw[7] == 'y');
                    }
                }
            }
        }
        r
    } else {
        false
    }
}

fn exec_is_number_body(s: &Vec<char>) -> (r: bool)
    ensures
        r == is_number_body(s@),
{
    let n1 = exec_count_digits(s, 0);
    if n1 > 0 {
        if n1 == s.len() {
            true
        } else if s[n1] == '.' {
            let n2 = exec_count_digits(s, n1 + 1);
            exec_exp_ok(s, n1 + 1 + n2)
        } else {
            exec_exp_ok(s, n1)
        }
    } else if s.len() > 0 && s[0] == '.' {
        let n2 = exec_count_digits(s, 1);
        if n2 == 0 {
            false
        } else {
            exec_exp_ok(s, 1 + n2)
        }
    } else {
        false
    }
}

/// Whether `s` is the text of a floating-point number.
pub fn exec_is_float_text(s: &Vec<char>) -> (r: bool)
    ensures
        r == is_float_text(s@),
{
    if s.len() > 0 && (s[0] == '+' || s[0] == '-') {
        let mut t: Vec<char> = Vec::new();
        let mut i: usize = 1;
        while i < s.len()
            invariant
                1 <= i <= s@.len(),
                t@ == s@.subrange(1, i as int),
            decreases s@.len() - i,
        {
            t.push(s[i]);
            proof {
                assert(t@ =~= s@.subrange(1, i + 1));
            }
            i += 1;
        }
        proof {
            assert(t@ =~= s@.drop_first());
        }
        exec_is_inf_nan_body(&t) || exec_is_number_body(&t)
    } else {
        exec_is_inf_nan_body(s) || exec_is_number_body(s)
    }
}

} // verus!
