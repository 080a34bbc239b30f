//! Association lists keyed by character sequences, shared by the property
//! map and the variable bindings.

use vstd::prelude::*;

verus! {

/// The index of the first entry with key `k`, or `-1` when there is none.
pub open spec fn key_at<V>(s: Seq<(Seq<char>, V)>, k: Seq<char>) -> int
    decreases s.len(),
{
    if s.len() == 0 {
        -1
    } else if s[0].0 == k {
        0
    } else {
        let r = key_at(s.drop_first(), k);
        if r == -1 {
            -1
        } else {
            r + 1
        }
    }
}

/// The value stored under `k`, if any.
pub open spec fn lookup<V>(s: Seq<(Seq<char>, V)>, k: Seq<char>) -> Option<V> {
    if key_at(s, k) == -1 {
        None
    } else {
        Some(s[key_at(s, k)].1)
    }
}

/// The value stored under the last entry with key `k`, if any.
pub open spec fn lookup_last<V>(s: Seq<(Seq<char>, V)>, k: Seq<char>) -> Option<V>
    decreases s.len(),
{
    if s.len() == 0 {
        None
    } else if s.last().0 == k {
        Some(s.last().1)
    } else {
        lookup_last(s.drop_last(), k)
    }
}

/// `key_at` points at an entry holding `k`, and at the first one.
pub proof fn lemma_key_at<V>(s: Seq<(Seq<char>, V)>, k: Seq<char>)
    ensures
        key_at(s, k) == -1 ==> forall|j: int| 0 <= j < s.len() ==> (#[trigger] s[j]).0 != k,
        key_at(s, k) != -1 ==> {
            &&& 0 <= key_at(s, k) < s.len()
            &&& s[key_at(s, k)].0 == k
            &&& forall|j: int| 0 <= j < key_at(s, k) ==> (#[trigger] s[j]).0 != k
        },
    decreases s.len(),
{
    if s.len() > 0 && s[0].0 != k {
        lemma_key_at(s.drop_first(), k);
        assert forall|j: int| 1 <= j < s.len() implies s.drop_first()[j - 1] == (
        #[trigger] s[j]) by {}
    }
}

/// Shifting past a prefix free of `k` leaves `key_at` pointing at the same
/// entry.
pub proof fn lemma_key_at_skip<V>(s: Seq<(Seq<char>, V)>, k: Seq<char>, i: int)
    requires
        0 <= i <= s.len(),
        forall|j: int| 0 <= j < i ==> (#[trigger] s[j]).0 != k,
    ensures
        key_at(s.skip(i), k) == -1 ==> key_at(s, k) == -1,
        key_at(s.skip(i), k) != -1 ==> key_at(s, k) == key_at(s.skip(i), k) + i,
    decreases i,
{
    if i == 0 {
        assert(s.skip(0) =~~= s);
    } else {
        lemma_key_at_skip(s, k, i - 1);
        lemma_key_at(s.skip(i), k);
        lemma_key_at(s, k);
        let t = s.skip(i - 1);
        assert(t.drop_first() =~~= s.skip(i));
        assert(t[0] == s[i - 1]);
        assert(t[0].0 != k);
        assert(t.len() > 0);
        assert(key_at(t, k) == if key_at(s.skip(i), k) == -1 {
            -1int
        } else {
            key_at(s.skip(i), k) + 1
        });
    }
}

/// Inserting `(k, v)`: replaces the first entry holding `k` in place, or
/// appends when there is none.
pub open spec fn assoc_insert<V>(s: Seq<(Seq<char>, V)>, k: Seq<char>, v: V) -> Seq<
    (Seq<char>, V),
> {
    if key_at(s, k) == -1 {
        s.push((k, v))
    } else {
        s.update(key_at(s, k), (k, v))
    }
}

} // verus!
