//! Typed key/value map with a serializable wire form.
//!
//! A property value is a tagged sum over strings, signed and unsigned
//! integers, floating-point numbers and booleans.  Floating-point values are
//! carried by their decimal text, which is also their wire form.
//! `to_vec` produces a wire vector whose first element is the count of the
//! remaining elements, followed by `(key, type_tag, value_text)` groups.
//! `parse_str` infers a type tag by trying bool, then unsigned, then signed,
//! then floating-point, then string.

use vstd::prelude::*;

use crate::assoc::{key_at, lemma_key_at, lemma_key_at_skip, lookup};
use crate::text::{
    chars_of, dec_str, exec_is_float_text, int_str, is_bool_text, is_float_text, is_i64_text,
    is_u64_text, i64_text_val, i64_to_string, parse_i64, parse_u64, str_concat, str_eq,
    u64_text_val, u64_to_string,
};

verus! {

pub const CONTEXT: &'static str = "context";

pub const HOSTNAME: &'static str = "hostname";

pub const PORT_LOWER: &'static str = "port_lower";

pub const PORT_UPPER: &'static str = "port_upper";

pub const KNOWN_PEER_ID: &'static str = "known_peer_id";

pub const ATTENTION_UPDATE_FLAG: &'static str = "attention_update_flag";

pub const COUNT_FLAG: &'static str = "count_flag";

pub const MAX_BUNDLE_SIZE: &'static str = "max_bundle_size";

pub const MAX_ANSWERS: &'static str = "max_answers";

pub const POSITIVE_IMPORTANCE_FLAG: &'static str = "positive_importance_flag";

pub const UNIQUE_ASSIGNMENT_FLAG: &'static str = "unique_assignment_flag";

pub const POPULATE_METTA_MAPPING: &'static str = "populate_metta_mapping";

pub const USE_METTA_AS_QUERY_TOKENS: &'static str = "use_metta_as_query_tokens";

pub const POPULATION_SIZE: &'static str = "population_size";

pub const MAX_GENERATIONS: &'static str = "max_generations";

pub const ELITISM_RATE: &'static str = "elitism_rate";

pub const SELECTION_RATE: &'static str = "selection_rate";

pub const TOTAL_ATTENTION_TOKENS: &'static str = "total_attention_tokens";

pub const USE_CACHE: &'static str = "use_cache";

pub const ENFORCE_CACHE_RECREATION: &'static str = "enforce_cache_recreation";

pub const INITIAL_RENT_RATE: &'static str = "initial_rent_rate";

pub const INITIAL_SPREADING_RATE_LOWERBOUND: &'static str = "initial_spreading_rate_lowerbound";

pub const INITIAL_SPREADING_RATE_UPPERBOUND: &'static str = "initial_spreading_rate_upperbound";

/// A property value.  `Double` carries the decimal text of the number,
/// which is also its wire form.
#[derive(Clone, Debug)]
pub enum PropertyValue {
    Text(String),
    Long(i64),
    UnsignedInt(u64),
    Double(String),
    Bool(bool),
}

/// The mathematical model of a property value.
pub enum PropView {
    Text(Seq<char>),
    Long(int),
    UnsignedInt(int),
    Double(Seq<char>),
    Bool(bool),
}

impl View for PropertyValue {
    type V = PropView;

    open spec fn view(&self) -> PropView {
        match self {
            PropertyValue::Text(s) => PropView::Text(s@),
            PropertyValue::Long(v) => PropView::Long(*v as int),
            PropertyValue::UnsignedInt(u) => PropView::UnsignedInt(*u as int),
            PropertyValue::Double(t) => PropView::Double(t@),
            PropertyValue::Bool(b) => PropView::Bool(*b),
        }
    }
}

/// The value a text parses to: bool, then unsigned, then signed, then
/// floating-point, then string.
pub open spec fn parse_view(s: Seq<char>) -> PropView {
    if is_bool_text(s) {
        PropView::Bool(s == "true"@)
    } else if is_u64_text(s) {
        PropView::UnsignedInt(u64_text_val(s))
    } else if is_i64_text(s) {
        PropView::Long(i64_text_val(s))
    } else if is_float_text(s) {
        PropView::Double(s)
    } else {
        PropView::Text(s)
    }
}

/// The wire text of a property value.
pub open spec fn value_text(v: PropView) -> Seq<char> {
    match v {
        PropView::Text(s) => s,
        PropView::Long(x) => int_str(x),
        PropView::UnsignedInt(u) => dec_str(u as nat),
        PropView::Double(t) => t,
        PropView::Bool(b) => if b {
            "true"@
        } else {
            "false"@
        },
    }
}

/// The wire type tag of a property value.
pub open spec fn tag_text(v: PropView) -> Seq<char> {
    match v {
        PropView::Text(_) => "string"@,
        PropView::Long(_) => "long"@,
        PropView::UnsignedInt(_) => "unsigned_int"@,
        PropView::Double(_) => "double"@,
        PropView::Bool(_) => "bool"@,
    }
}

impl PropertyValue {
    /// Infers a value from its text, trying bool, unsigned, signed,
    /// floating-point and string in that order.
    pub fn parse_str(s: &str) -> (r: Result<PropertyValue, String>)
        ensures
            r matches Ok(v) && v@ == parse_view(s@),
    {
        if str_eq(s, "true") {
            Ok(PropertyValue::Bool(true))
        } else if str_eq(s, "false") {
            Ok(PropertyValue::Bool(false))
        } else {
            let cs = chars_of(s);
            if let Some(u) = parse_u64(&cs) {
                Ok(PropertyValue::UnsignedInt(u))
            } else if let Some(v) = parse_i64(&cs) {
                Ok(PropertyValue::Long(v))
            } else if exec_is_float_text(&cs) {
                Ok(PropertyValue::Double(String::from_str(s)))
            } else {
                Ok(PropertyValue::Text(String::from_str(s)))
            }
        }
    }

    /// The wire text of this value.
    pub fn to_text(&self) -> (r: String)
        ensures
            r@ == value_text(self@),
    {
        match self {
            PropertyValue::Text(s) => s.clone(),
            PropertyValue::Long(v) => i64_to_string(*v),
            PropertyValue::UnsignedInt(u) => u64_to_string(*u),
            PropertyValue::Double(t) => t.clone(),
            PropertyValue::Bool(b) => if *b {
                String::from_str("true")
            } else {
                String::from_str("false")
            },
        }
    }

    /// The wire type tag of this value.
    pub fn tag(&self) -> (r: String)
        ensures
            r@ == tag_text(self@),
    {
        match self {
            PropertyValue::Text(_) => String::from_str("string"),
            PropertyValue::Long(_) => String::from_str("long"),
            PropertyValue::UnsignedInt(_) => String::from_str("unsigned_int"),
            PropertyValue::Double(_) => String::from_str("double"),
            PropertyValue::Bool(_) => String::from_str("bool"),
        }
    }
}

/// A mapping from key to tagged value, with each key held at most once.
#[derive(Debug)]
pub struct Properties {
    entries: Vec<(String, PropertyValue)>,
}

impl Clone for Properties {
    fn clone(&self) -> (r: Self)
        ensures
            r@ == self@,
    {
        let mut entries: Vec<(String, PropertyValue)> = Vec::new();
        let mut i: usize = 0;
        while i < self.entries.len()
            invariant
                i <= self.entries@.len(),
                entries@.len() == i,
                forall|j: int|
                    0 <= j < i ==> (#[trigger] entries@[j]).0@ == self.entries@[j].0@
                        && entries@[j].1@ == self.entries@[j].1@,
            decreases self.entries@.len() - i,
        {
            let k = self.entries[i].0.clone();
            let v = self.entries[i].1.clone_value();
            entries.push((k, v));
            i += 1;
        }
        let r = Properties { entries };
        proof {
            let f = |e: (String, PropertyValue)| (e.0@, e.1@);
            assert forall|j: int| 0 <= j < self@.len() implies r@[j] == #[trigger] self@[j] by {
                assert(r@[j] == f(r.entries@[j]));
                assert(self@[j] == f(self.entries@[j]));
            }
            assert(r@ =~~= self@);
        }
        r
    }
}

impl View for Properties {
    type V = Seq<(Seq<char>, PropView)>;

    /// The entries of the map, in serialization order.
    closed spec fn view(&self) -> Seq<(Seq<char>, PropView)> {
        self.entries@.map_values(|e: (String, PropertyValue)| (e.0@, e.1@))
    }
}

/// The wire triples of a run of entries: key, type tag, value text for each.
pub open spec fn wire_triples(s: Seq<(Seq<char>, PropView)>) -> Seq<Seq<char>>
    decreases s.len(),
{
    if s.len() == 0 {
        Seq::empty()
    } else {
        seq![s[0].0, tag_text(s[0].1), value_text(s[0].1)] + wire_triples(s.drop_first())
    }
}

/// The wire form of a property map: the count of the following elements,
/// then the triples.
pub open spec fn wire_view(s: Seq<(Seq<char>, PropView)>) -> Seq<Seq<char>> {
    seq![dec_str((3 * s.len()) as nat)] + wire_triples(s)
}

proof fn lemma_wire_triples_push(s: Seq<(Seq<char>, PropView)>, e: (Seq<char>, PropView))
    ensures
        wire_triples(s.push(e)) == wire_triples(s) + seq![e.0, tag_text(e.1), value_text(e.1)],
    decreases s.len(),
{
    if s.len() == 0 {
        assert(s.push(e)[0] == e);
        assert(wire_triples(Seq::<(Seq<char>, PropView)>::empty()) =~~= Seq::<Seq<char>>::empty());
        assert(s.push(e).drop_first() =~~= Seq::<(Seq<char>, PropView)>::empty());
        assert(wire_triples(s.push(e)) =~~= seq![e.0, tag_text(e.1), value_text(e.1)]);
        assert(wire_triples(s) + seq![e.0, tag_text(e.1), value_text(e.1)] =~~= seq![
            e.0,
            tag_text(e.1),
            value_text(e.1),
        ]);
    } else {
        lemma_wire_triples_push(s.drop_first(), e);
        assert(s.push(e)[0] == s[0]);
        assert(s.push(e).drop_first() =~~= s.drop_first().push(e));
        assert(wire_triples(s.push(e)) =~~= wire_triples(s) + seq![
            e.0,
            tag_text(e.1),
            value_text(e.1),
        ]);
    }
}

impl Properties {
    /// No key occurs twice.
    pub open spec fn wf(&self) -> bool {
        forall|i: int, j: int| 0 <= i < j < self@.len() ==> (#[trigger] self@[i]).0 != (
        #[trigger] self@[j]).0
    }

    /// An empty map.
    pub fn new() -> (r: Properties)
        ensures
            r@ == Seq::<(Seq<char>, PropView)>::empty(),
            r.wf(),
    {
        let r = Properties { entries: Vec::new() };
        proof {
            assert(r@ =~= Seq::<(Seq<char>, PropView)>::empty());
        }
        r
    }

    /// The index of the entry holding `key`, if any.
    fn find_index(&self, key: &str) -> (r: Option<usize>)
        ensures
            r matches Some(i) ==> i == key_at(self@, key@),
            r is None ==> key_at(self@, key@) == -1,
    {
        let mut i: usize = 0;
        while i < self.entries.len()
            invariant
                i <= self@.len(),
                forall|j: int| 0 <= j < i ==> (#[trigger] self@[j]).0 != key@,
            decreases self@.len() - i,
        {
            if str_eq(self.entries[i].0.as_str(), key) {
                proof {
                    lemma_key_at_skip(self@, key@, i as int);
                    assert(self@.skip(i as int)[0] == self@[i as int]);
                }
                return Some(i);
            }
            i += 1;
        }
        proof {
            lemma_key_at_skip(self@, key@, i as int);
            assert(self@.skip(i as int).len() == 0);
        }
        None
    }

    /// Stores `value` under `key`, replacing in place any value already
    /// there and appending otherwise.
    pub fn insert(&mut self, key: String, value: PropertyValue)
        ensures
            key_at(old(self)@, key@) == -1 ==> final(self)@ == old(self)@.push((key@, value@)),
            key_at(old(self)@, key@) != -1 ==> final(self)@ == old(self)@.update(
                key_at(old(self)@, key@),
                (key@, value@),
            ),
            lookup(final(self)@, key@) == Some(value@),
            old(self).wf() ==> final(self).wf(),
    {
        proof {
            lemma_key_at(self@, key@);
        }
        let ghost pre = self@;
        match self.find_index(key.as_str()) {
            Some(i) => {
                self.entries.remove(i);
                self.entries.insert(i, (key, value));
                proof {
                    assert(self@ =~= pre.update(key_at(pre, key@), (key@, value@)));
                    lemma_key_at(self@, key@);
                    assert forall|j: int| 0 <= j < key_at(pre, key@) implies (
                    #[trigger] self@[j]).0 != key@ by {
                        assert(self@[j] == pre[j]);
                    }
                    lemma_key_at_skip(self@, key@, key_at(pre, key@));
                    assert(self@.skip(key_at(pre, key@))[0] == self@[key_at(pre, key@)]);
                    if old(self).wf() {
                        assert forall|a: int, b: int|
                            0 <= a < b < self@.len() implies (#[trigger] self@[a]).0 != (
                        #[trigger] self@[b]).0 by {
                            let i0 = key_at(pre, key@);
                            if a != i0 && b != i0 {
                                assert(self@[a] == pre[a] && self@[b] == pre[b]);
                            } else if a == i0 {
                                assert(pre[b].0 != pre[i0].0);
                            } else {
                                assert(pre[a].0 != pre[i0].0);
                            }
                        }
                    }
                }
            },
            None => {
                self.entries.push((key, value));
                proof {
                    assert(self@ =~= pre.push((key@, value@)));
                    lemma_key_at_skip(self@, key@, pre.len() as int);
                    assert(self@.skip(pre.len() as int) =~= seq![(key@, value@)]);
                    if old(self).wf() {
                        assert forall|a: int, b: int|
                            0 <= a < b < self@.len() implies (#[trigger] self@[a]).0 != (
                        #[trigger] self@[b]).0 by {
                            if b < pre.len() {
                                assert(self@[a] == pre[a] && self@[b] == pre[b]);
                            } else {
                                assert(self@[a] == pre[a]);
                            }
                        }
                    }
                }
            },
        }
    }

    /// The value under `key`, if any.
    pub fn try_get(&self, key: &str) -> (r: Option<&PropertyValue>)
        ensures
            r matches Some(v) ==> lookup(self@, key@) == Some(v@),
            r is None ==> lookup(self@, key@) is None,
    {
        proof {
            lemma_key_at(self@, key@);
        }
        match self.find_index(key) {
            Some(i) => Some(&self.entries[i].1),
            None => None,
        }
    }

    /// The value under `key`; an error names the key when it is absent.
    pub fn get(&self, key: &str) -> (r: Result<PropertyValue, String>)
        ensures
            r matches Ok(v) ==> lookup(self@, key@) == Some(v@),
            r is Err <==> lookup(self@, key@) is None,
    {
        match self.try_get(key) {
            Some(v) => Ok(v.clone_value()),
            None => Err(str_concat("Property value not found: ", key)),
        }
    }

    /// The boolean under `key`; an error when it is absent or of another
    /// type.
    pub fn get_bool(&self, key: &str) -> (r: Result<bool, String>)
        ensures
            r matches Ok(b) ==> lookup(self@, key@) == Some(PropView::Bool(b)),
            r is Err <==> !(lookup(self@, key@) matches Some(PropView::Bool(_))),
    {
        match self.try_get(key) {
            Some(PropertyValue::Bool(b)) => Ok(*b),
            _ => Err(str_concat("Failed to read bool property: ", key)),
        }
    }

    /// The unsigned integer under `key`; an error when it is absent or of
    /// another type.
    pub fn get_u64(&self, key: &str) -> (r: Result<u64, String>)
        ensures
            r matches Ok(u) ==> lookup(self@, key@) == Some(PropView::UnsignedInt(u as int)),
            r is Err <==> !(lookup(self@, key@) matches Some(PropView::UnsignedInt(_))),
    {
        match self.try_get(key) {
            Some(PropertyValue::UnsignedInt(u)) => Ok(*u),
            _ => Err(str_concat("Failed to read unsigned property: ", key)),
        }
    }

    /// The string under `key`; an error when it is absent or of another
    /// type.
    pub fn get_text(&self, key: &str) -> (r: Result<String, String>)
        ensures
            r matches Ok(s) ==> lookup(self@, key@) == Some(PropView::Text(s@)),
            r is Err <==> !(lookup(self@, key@) matches Some(PropView::Text(_))),
    {
        match self.try_get(key) {
            Some(PropertyValue::Text(s)) => Ok(s.clone()),
            _ => Err(str_concat("Failed to read string property: ", key)),
        }
    }

    /// The wire form: the count of the following elements, then a
    /// key, type-tag, value-text triple for each entry.
    pub fn to_vec(&self) -> (r: Vec<String>)
        requires
            3 * self@.len() <= u64::MAX,
        ensures
            r.deep_view() == wire_view(self@),
    {
        let mut r: Vec<String> = Vec::new();
        let count: u64 = (self.entries.len() as u64) * 3;
        r.push(u64_to_string(count));
        proof {
            assert(wire_triples(self@.take(0)) =~~= Seq::<Seq<char>>::empty()) by {
                assert(self@.take(0) =~~= Seq::<(Seq<char>, PropView)>::empty());
            }
            assert(r.deep_view() =~~= seq![dec_str((3 * self@.len()) as nat)] + wire_triples(
                self@.take(0),
            ));
        }
        let mut i: usize = 0;
        while i < self.entries.len()
            invariant
                i <= self@.len(),
                r.deep_view() == seq![dec_str((3 * self@.len()) as nat)] + wire_triples(
                    self@.take(i as int),
                ),
            decreases self@.len() - i,
        {
            let key = self.entries[i].0.clone();
            let tag = self.entries[i].1.tag();
            let text = self.entries[i].1.to_text();
            let ghost dv0 = r.deep_view();
            let ghost kv = key@;
            let ghost tv = tag@;
            let ghost xv = text@;
            r.push(key);
            proof {
                assert(r.deep_view() =~~= dv0.push(kv));
            }
            let ghost dv1 = r.deep_view();
            r.push(tag);
            proof {
                assert(r.deep_view() =~~= dv1.push(tv));
            }
            let ghost dv2 = r.deep_view();
            r.push(text);
            proof {
                assert(r.deep_view() =~~= dv2.push(xv));
                let f = |e: (String, PropertyValue)| (e.0@, e.1@);
                assert(self@[i as int] == f(self.entries@[i as int]));
                lemma_wire_triples_push(self@.take(i as int), self@[i as int]);
                assert(self@.take(i + 1) =~~= self@.take(i as int).push(self@[i as int]));
                assert(r.deep_view() =~~= seq![dec_str((3 * self@.len()) as nat)] + wire_triples(
                    self@.take(i + 1),
                ));
            }
            i += 1;
        }
        proof {
            assert(self@.take(i as int) =~~= self@);
            assert(r.deep_view() =~~= wire_view(self@));
        }
        r
    }
}

impl PropertyValue {
    /// A copy of this value.
    pub fn clone_value(&self) -> (r: PropertyValue)
        ensures
            r@ == self@,
    {
        match self {
            PropertyValue::Text(s) => PropertyValue::Text(s.clone()),
            PropertyValue::Long(v) => PropertyValue::Long(*v),
            PropertyValue::UnsignedInt(u) => PropertyValue::UnsignedInt(*u),
            PropertyValue::Double(t) => PropertyValue::Double(t.clone()),
            PropertyValue::Bool(b) => PropertyValue::Bool(*b),
        }
    }
}

/// Law: parsing a serialized value gives the value back, for every value
/// whose wire text does not also belong to a type tried earlier in the
/// inference order.  A non-negative signed value is excluded because its
/// text parses as unsigned first; a floating-point text that is also an
/// integer or boolean text is excluded for the same reason; a string is
/// excluded when it looks like any of the other types.
pub proof fn lemma_value_round_trip(v: PropView)
    requires
        v matches PropView::Text(s) ==> !is_bool_text(s) && !is_u64_text(s) && !is_i64_text(s)
            && !is_float_text(s),
        v matches PropView::Long(x) ==> i64::MIN <= x < 0,
        v matches PropView::UnsignedInt(u) ==> 0 <= u <= u64::MAX,
        v matches PropView::Double(t) ==> is_float_text(t) && !is_bool_text(t) && !is_u64_text(t)
            && !is_i64_text(t),
    ensures
        parse_view(value_text(v)) == v,
{
    reveal_strlit("true");
    reveal_strlit("false");
    match v {
        PropView::Bool(b) => {
            if b {
                let s = "true"@;
                assert(!("true"@ == "false"@)) by {
                    assert("true"@.len() == 4);
                }
                assert(parse_view(s) == PropView::Bool(true));
            } else {
                let s = "false"@;
                assert(!("false"@ == "true"@)) by {
                    assert("false"@.len() == 5);
                }
                assert(parse_view(s) == PropView::Bool(false));
            }
        },
        PropView::UnsignedInt(u) => {
            let s = dec_str(u as nat);
            crate::text::lemma_dec_str_digits(u as nat);
            crate::text::lemma_dec_val_dec_str(u as nat);
            assert(!is_bool_text(s)) by {
                assert(crate::text::is_dec_digit(s[0]));
                assert(!crate::text::is_dec_digit('t'));
                assert(!crate::text::is_dec_digit('f'));
                if s == "true"@ {
                    assert(s[0] == 't');
                }
                if s == "false"@ {
                    assert(s[0] == 'f');
                }
            }
            assert(s[0] != '+') by {
                assert(crate::text::is_dec_digit(s[0]));
            }
            assert(is_u64_text(s));
            assert(u64_text_val(s) == u);
        },
        PropView::Long(x) => {
            let m = (-x) as nat;
            let s = int_str(x);
            crate::text::lemma_dec_str_digits(m);
            crate::text::lemma_dec_val_dec_str(m);
            assert(s[0] == '-');
            assert(s.drop_first() =~= dec_str(m));
            assert(!is_bool_text(s)) by {
                assert(!crate::text::is_dec_digit('-'));
                if s == "true"@ {
                    assert(s[0] == 't');
                }
                if s == "false"@ {
                    assert(s[0] == 'f');
                }
            }
            assert(!is_u64_text(s)) by {
                assert(!crate::text::is_dec_digit(s[0]));
            }
            assert(is_i64_text(s));
            assert(i64_text_val(s) == x);
        },
        PropView::Double(_t) => {},
        PropView::Text(_s) => {},
    }
}

/// The default property map: the standard context, networking, query,
/// evolution and context-broker parameters, in this order.
pub open spec fn default_entries() -> Seq<(Seq<char>, PropView)> {
    seq![
        (CONTEXT@, PropView::Text("context"@)),
        (HOSTNAME@, PropView::Text(Seq::<char>::empty())),
        (PORT_LOWER@, PropView::UnsignedInt(0)),
        (PORT_UPPER@, PropView::UnsignedInt(0)),
        (KNOWN_PEER_ID@, PropView::Text(Seq::<char>::empty())),
        (MAX_ANSWERS@, PropView::UnsignedInt(1000)),
        (MAX_BUNDLE_SIZE@, PropView::UnsignedInt(1000)),
        (UNIQUE_ASSIGNMENT_FLAG@, PropView::Bool(true)),
        (POSITIVE_IMPORTANCE_FLAG@, PropView::Bool(false)),
        (ATTENTION_UPDATE_FLAG@, PropView::Bool(false)),
        (COUNT_FLAG@, PropView::Bool(false)),
        (POPULATE_METTA_MAPPING@, PropView::Bool(true)),
        (USE_METTA_AS_QUERY_TOKENS@, PropView::Bool(true)),
        (POPULATION_SIZE@, PropView::UnsignedInt(50)),
        (MAX_GENERATIONS@, PropView::UnsignedInt(10)),
        (ELITISM_RATE@, PropView::Double("0.08"@)),
        (SELECTION_RATE@, PropView::Double("0.1"@)),
        (TOTAL_ATTENTION_TOKENS@, PropView::UnsignedInt(100000)),
        (USE_CACHE@, PropView::Bool(true)),
        (ENFORCE_CACHE_RECREATION@, PropView::Bool(false)),
        (INITIAL_RENT_RATE@, PropView::Double("0.25"@)),
        (INITIAL_SPREADING_RATE_LOWERBOUND@, PropView::Double("0.50"@)),
        (INITIAL_SPREADING_RATE_UPPERBOUND@, PropView::Double("0.70"@)),
    ]
}

impl Default for Properties {
    /// The default property map.
    fn default() -> (r: Properties)
        ensures
            r@ == default_entries(),
    {
        let mut entries: Vec<(String, PropertyValue)> = Vec::new();
        entries.push(
            (String::from_str(CONTEXT), PropertyValue::Text(String::from_str("context"))),
        );
        entries.push((String::from_str(HOSTNAME), PropertyValue::Text(String::new())));
        entries.push((String::from_str(PORT_LOWER), PropertyValue::UnsignedInt(0)));
        entries.push((String::from_str(PORT_UPPER), PropertyValue::UnsignedInt(0)));
        entries.push((String::from_str(KNOWN_PEER_ID), PropertyValue::Text(String::new())));
        entries.push((String::from_str(MAX_ANSWERS), PropertyValue::UnsignedInt(1000)));
        entries.push((String::from_str(MAX_BUNDLE_SIZE), PropertyValue::UnsignedInt(1000)));
        entries.push((String::from_str(UNIQUE_ASSIGNMENT_FLAG), PropertyValue::Bool(true)));
        entries.push((String::from_str(POSITIVE_IMPORTANCE_FLAG), PropertyValue::Bool(false)));
        entries.push((String::from_str(ATTENTION_UPDATE_FLAG), PropertyValue::Bool(false)));
        entries.push((String::from_str(COUNT_FLAG), PropertyValue::Bool(false)));
        entries.push((String::from_str(POPULATE_METTA_MAPPING), PropertyValue::Bool(true)));
        entries.push((String::from_str(USE_METTA_AS_QUERY_TOKENS), PropertyValue::Bool(true)));
        entries.push((String::from_str(POPULATION_SIZE), PropertyValue::UnsignedInt(50)));
        entries.push((String::from_str(MAX_GENERATIONS), PropertyValue::UnsignedInt(10)));
        entries.push(
            (String::from_str(ELITISM_RATE), PropertyValue::Double(String::from_str("0.08"))),
        );
        entries.push(
            (String::from_str(SELECTION_RATE), PropertyValue::Double(String::from_str("0.1"))),
        );
        entries.push(
            (String::from_str(TOTAL_ATTENTION_TOKENS), PropertyValue::UnsignedInt(100000)),
        );
        entries.push((String::from_str(USE_CACHE), PropertyValue::Bool(true)));
        entries.push((String::from_str(ENFORCE_CACHE_RECREATION), PropertyValue::Bool(false)));
        entries.push(
            (
                String::from_str(INITIAL_RENT_RATE),
                PropertyValue::Double(String::from_str("0.25")),
            ),
        );
        entries.push(
            (
                String::from_str(INITIAL_SPREADING_RATE_LOWERBOUND),
                PropertyValue::Double(String::from_str("0.50")),
            ),
        );
        entries.push(
            (
                String::from_str(INITIAL_SPREADING_RATE_UPPERBOUND),
                PropertyValue::Double(String::from_str("0.70")),
            ),
        );
        let r = Properties { entries };
        proof {
            assert(r@ =~~= default_entries());
        }
        r
    }
}

/// Whether `a` stands at or before `b` in code-point order.
pub open spec fn lex_le(a: Seq<char>, b: Seq<char>) -> bool
    decreases a.len(),
{
    if a.len() == 0 {
        true
    } else if b.len() == 0 {
        false
    } else if a[0] != b[0] {
        (a[0] as u32) < (b[0] as u32)
    } else {
        lex_le(a.drop_first(), b.drop_first())
    }
}

/// The code-point order is total.
pub proof fn lemma_lex_total(a: Seq<char>, b: Seq<char>)
    ensures
        lex_le(a, b) || lex_le(b, a),
    decreases a.len(),
{
    if a.len() > 0 && b.len() > 0 {
        if a[0] == b[0] {
            lemma_lex_total(a.drop_first(), b.drop_first());
        } else {
            assert(a[0] as u32 != b[0] as u32) by {
                if a[0] as u32 == b[0] as u32 {
                    vstd::utf8::char_u32_cast(a[0], a[0] as u32);
                    vstd::utf8::char_u32_cast(b[0], b[0] as u32);
                }
            }
        }
    }
}

/// The code-point order is transitive.
pub proof fn lemma_lex_trans(a: Seq<char>, b: Seq<char>, c: Seq<char>)
    requires
        lex_le(a, b),
        lex_le(b, c),
    ensures
        lex_le(a, c),
    decreases a.len(),
{
    if a.len() > 0 && b.len() > 0 && c.len() > 0 && a[0] == b[0] && b[0] == c[0] {
        lemma_lex_trans(a.drop_first(), b.drop_first(), c.drop_first());
    }
}

/// Whether `a` stands at or before `b` in code-point order.
#[verifier::loop_isolation(false)]
pub fn str_le(a: &str, b: &str) -> (r: bool)
    ensures
        r == lex_le(a@, b@),
{
    let ca = chars_of(a);
    let cb = chars_of(b);
    let mut i: usize = 0;
    proof {
        assert(a@.skip(0) =~~= a@);
        assert(b@.skip(0) =~~= b@);
    }
    while i < ca.len() && i < cb.len()
        invariant
            i <= ca@.len(),
            i <= cb@.len(),
            ca@ == a@,
            cb@ == b@,
            lex_le(a@, b@) == lex_le(a@.skip(i as int), b@.skip(i as int)),
        decreases ca@.len() - i,
    {
        proof {
            assert(a@.skip(i as int)[0] == a@[i as int]);
            assert(b@.skip(i as int)[0] == b@[i as int]);
            assert(a@.skip(i as int).drop_first() =~~= a@.skip(i + 1));
            assert(b@.skip(i as int).drop_first() =~~= b@.skip(i + 1));
        }
        if ca[i] != cb[i] {
            return (ca[i] as u32) < (cb[i] as u32);
        }
        i += 1;
    }
    proof {
        if i >= ca@.len() {
            assert(a@.skip(i as int).len() == 0);
        } else {
            assert(b@.skip(i as int).len() == 0);
            assert(a@.skip(i as int).len() > 0);
        }
    }
    i >= ca.len()
}

impl Properties {
    /// The keys of the map, in code-point order.
    #[verifier::loop_isolation(false)]
    #[verifier::rlimit(60)]
    pub fn keys(&self) -> (r: Vec<String>)
        ensures
            r.deep_view().len() == self@.len(),
            forall|a: int, b: int|
                0 <= a < b < r.deep_view().len() ==> lex_le(
                    #[trigger] r.deep_view()[a],
                    #[trigger] r.deep_view()[b],
                ),
            forall|v: Seq<char>|
                r.deep_view().contains(v) <==> (exists|j: int|
                    0 <= j < self@.len() && (#[trigger] self@[j]).0 == v),
    {
        let mut r: Vec<String> = Vec::new();
        let mut i: usize = 0;
        proof {
            assert(r.deep_view() =~~= Seq::<Seq<char>>::empty());
        }
        while i < self.entries.len()
            invariant
                i <= self@.len(),
                self@.len() == self.entries@.len(),
                r.deep_view().len() == i,
                forall|a: int, b: int|
                    0 <= a < b < r.deep_view().len() ==> lex_le(
                        #[trigger] r.deep_view()[a],
                        #[trigger] r.deep_view()[b],
                    ),
                forall|v: Seq<char>|
                    r.deep_view().contains(v) <==> (exists|j: int|
                        0 <= j < i && (#[trigger] self@[j]).0 == v),
            decreases self@.len() - i,
        {
            proof {
                assert(self@[i as int] == (self.entries@[i as int].0@,
                self.entries@[i as int].1@));
            }
            let key = self.entries[i].0.clone();
            let ghost kv = key@;
            let mut pos: usize = 0;
            while pos < r.len() && str_le(r[pos].as_str(), key.as_str())
                invariant
                    pos <= r.deep_view().len(),
                    kv == key@,
                    forall|j: int| 0 <= j < pos ==> lex_le(#[trigger] r.deep_view()[j], kv),
                decreases r.deep_view().len() - pos,
            {
                proof {
                    assert(r.deep_view()[pos as int] == r@[pos as int]@);
                }
                pos += 1;
            }
            proof {
                if pos < r.deep_view().len() {
                    assert(r.deep_view()[pos as int] == r@[pos as int]@);
                    lemma_lex_total(r.deep_view()[pos as int], kv);
                }
            }
            let ghost before = r.deep_view();
            r.insert(pos, key);
            proof {
                assert(r.deep_view() =~~= before.insert(pos as int, kv));
                let dv = r.deep_view();
                assert forall|a: int, b: int|
                    0 <= a < b < dv.len() implies lex_le(#[trigger] dv[a], #[trigger] dv[b]) by {
                    if a < pos && b < pos {
                        assert(dv[a] == before[a] && dv[b] == before[b]);
                    } else if a < pos && b == pos {
                        assert(dv[a] == before[a]);
                    } else if a < pos && b > pos {
                        assert(dv[a] == before[a] && dv[b] == before[b - 1]);
                    } else if a == pos && b > pos {
                        assert(dv[b] == before[b - 1]);
                        assert(lex_le(kv, before[pos as int]));
                        if b - 1 > pos {
                            lemma_lex_trans(kv, before[pos as int], before[b - 1]);
                        }
                    } else {
                        assert(dv[a] == before[a - 1] && dv[b] == before[b - 1]);
                    }
                }
                assert forall|v: Seq<char>|
                    dv.contains(v) <==> (exists|j: int|
                        0 <= j < i + 1 && (#[trigger] self@[j]).0 == v) by {
                    if dv.contains(v) {
                        let k = choose|k: int| 0 <= k < dv.len() && dv[k] == v;
                        if k == pos {
                            assert(dv[k] == kv);
                            assert(self@[i as int].0 == v);
                        } else if k < pos {
                            assert(dv[k] == before[k]);
                            assert(before.contains(v)) by {
                                assert(before[k] == v);
                            }
                            assert(exists|j: int| 0 <= j < i && (#[trigger] self@[j]).0 == v);
                        } else {
                            assert(dv[k] == before[k - 1]);
                            assert(before.contains(v)) by {
                                assert(before[k - 1] == v);
                            }
                            assert(exists|j: int| 0 <= j < i && (#[trigger] self@[j]).0 == v);
                        }
                    }
                    if exists|j: int| 0 <= j < i + 1 && (#[trigger] self@[j]).0 == v {
                        let j = choose|j: int| 0 <= j < i + 1 && (#[trigger] self@[j]).0 == v;
                        if j == i {
                            assert(dv[pos as int] == kv);
                            assert(dv.contains(v)) by {
                                assert(dv[pos as int] == v);
                            }
                        } else {
                            assert(before.contains(v));
                            let k = choose|k: int| 0 <= k < before.len() && before[k] == v;
                            if k < pos {
                                assert(dv.contains(v)) by {
                                    assert(dv[k] == v);
                                }
                            } else {
                                assert(dv.contains(v)) by {
                                    assert(dv[k + 1] == v);
                                }
                            }
                        }
                    }
                }
            }
            i += 1;
        }
        r
    }
}

/// The text of one set-parameter line.
pub open spec fn set_param_text(key: Seq<char>, v: PropView) -> Seq<char> {
    "    !(das-set-param! ("@ + key + " "@ + value_text(v) + "))"@
}

/// Whether `key` is present in `s`.
pub open spec fn has_key(s: Seq<(Seq<char>, PropView)>, key: Seq<char>) -> bool {
    lookup(s, key) is Some
}

impl Properties {
    /// One set-parameter line; an error names a missing key.
    fn set_param_line(&self, key: &str) -> (r: Result<String, String>)
        ensures
            r is Ok <==> has_key(self@, key@),
            r matches Ok(l) ==> l@ == set_param_text(key@, lookup(self@, key@)->Some_0),
    {
        let value = match self.try_get(key) {
            Some(v) => v,
            None => {
                return Err(str_concat("Property value not found: ", key));
            },
        };
        let text = value.to_text();
        let a = str_concat("    !(das-set-param! (", key);
        let b = a.concat(" ");
        let c = b.concat(text.as_str());
        let r = c.concat("))");
        proof {
            assert(r@ =~~= set_param_text(key@, lookup(self@, key@)->Some_0));
        }
        Ok(r)
    }

    /// The names of the keys a parameter report covers, in report order.
    pub open spec fn section_keys() -> Seq<Seq<char>> {
        seq![
            HOSTNAME@,
            PORT_LOWER@,
            PORT_UPPER@,
            KNOWN_PEER_ID@,
            CONTEXT@,
            USE_CACHE@,
            ENFORCE_CACHE_RECREATION@,
            INITIAL_RENT_RATE@,
            INITIAL_SPREADING_RATE_LOWERBOUND@,
            INITIAL_SPREADING_RATE_UPPERBOUND@,
            MAX_ANSWERS@,
            MAX_BUNDLE_SIZE@,
            UNIQUE_ASSIGNMENT_FLAG@,
            POSITIVE_IMPORTANCE_FLAG@,
            ATTENTION_UPDATE_FLAG@,
            COUNT_FLAG@,
            POPULATE_METTA_MAPPING@,
            USE_METTA_AS_QUERY_TOKENS@,
            POPULATION_SIZE@,
            MAX_GENERATIONS@,
            ELITISM_RATE@,
            SELECTION_RATE@,
            TOTAL_ATTENTION_TOKENS@,
        ]
    }

    /// The lines of the parameter report: a title, then each section's
    /// header and its set-parameter lines.  An error names the first
    /// missing key.
    #[verifier::rlimit(60)]
    pub fn section_lines(&self) -> (r: Result<Vec<String>, String>)
        ensures
            r is Ok <==> (forall|i: int|
                0 <= i < Self::section_keys().len() ==> has_key(
                    self@,
                    #[trigger] Self::section_keys()[i],
                )),
            r matches Ok(lines) ==> lines.deep_view() == seq![
                "DAS Parameters:"@,
                "  Networking:"@,
                set_param_text(HOSTNAME@, lookup(self@, HOSTNAME@)->Some_0),
                set_param_text(PORT_LOWER@, lookup(self@, PORT_LOWER@)->Some_0),
                set_param_text(PORT_UPPER@, lookup(self@, PORT_UPPER@)->Some_0),
                set_param_text(KNOWN_PEER_ID@, lookup(self@, KNOWN_PEER_ID@)->Some_0),
                "  Context:"@,
                set_param_text(CONTEXT@, lookup(self@, CONTEXT@)->Some_0),
                set_param_text(USE_CACHE@, lookup(self@, USE_CACHE@)->Some_0),
                set_param_text(
                    ENFORCE_CACHE_RECREATION@,
                    lookup(self@, ENFORCE_CACHE_RECREATION@)->Some_0,
                ),
                set_param_text(INITIAL_RENT_RATE@, lookup(self@, INITIAL_RENT_RATE@)->Some_0),
                set_param_text(
                    INITIAL_SPREADING_RATE_LOWERBOUND@,
                    lookup(self@, INITIAL_SPREADING_RATE_LOWERBOUND@)->Some_0,
                ),
                set_param_text(
                    INITIAL_SPREADING_RATE_UPPERBOUND@,
                    lookup(self@, INITIAL_SPREADING_RATE_UPPERBOUND@)->Some_0,
                ),
                "  Query:"@,
                set_param_text(MAX_ANSWERS@, lookup(self@, MAX_ANSWERS@)->Some_0),
                set_param_text(MAX_BUNDLE_SIZE@, lookup(self@, MAX_BUNDLE_SIZE@)->Some_0),
                set_param_text(
                    UNIQUE_ASSIGNMENT_FLAG@,
                    lookup(self@, UNIQUE_ASSIGNMENT_FLAG@)->Some_0,
                ),
                set_param_text(
                    POSITIVE_IMPORTANCE_FLAG@,
                    lookup(self@, POSITIVE_IMPORTANCE_FLAG@)->Some_0,
                ),
                set_param_text(
                    ATTENTION_UPDATE_FLAG@,
                    lookup(self@, ATTENTION_UPDATE_FLAG@)->Some_0,
                ),
                set_param_text(COUNT_FLAG@, lookup(self@, COUNT_FLAG@)->Some_0),
                set_param_text(
                    POPULATE_METTA_MAPPING@,
                    lookup(self@, POPULATE_METTA_MAPPING@)->Some_0,
                ),
                set_param_text(
                    USE_METTA_AS_QUERY_TOKENS@,
                    lookup(self@, USE_METTA_AS_QUERY_TOKENS@)->Some_0,
                ),
                "  Evolution:"@,
                set_param_text(POPULATION_SIZE@, lookup(self@, POPULATION_SIZE@)->Some_0),
                set_param_text(MAX_GENERATIONS@, lookup(self@, MAX_GENERATIONS@)->Some_0),
                set_param_text(ELITISM_RATE@, lookup(self@, ELITISM_RATE@)->Some_0),
                set_param_text(SELECTION_RATE@, lookup(self@, SELECTION_RATE@)->Some_0),
                set_param_text(
                    TOTAL_ATTENTION_TOKENS@,
                    lookup(self@, TOTAL_ATTENTION_TOKENS@)->Some_0,
                ),
            ],
    {
        let mut lines: Vec<String> = Vec::new();
        crate::helpers::push_string(&mut lines, String::from_str("DAS Parameters:"));
        crate::helpers::push_string(&mut lines, String::from_str("  Networking:"));
        match self.set_param_line(HOSTNAME) {
            Ok(l) => crate::helpers::push_string(&mut lines, l),
            Err(e) => {
                proof {
                    assert(Self::section_keys()[0] == HOSTNAME@);
                }
                return Err(e);
            },
        }
        match self.set_param_line(PORT_LOWER) {
            Ok(l) => crate::helpers::push_string(&mut lines, l),
            Err(e) => {
                proof {
                    assert(Self::section_keys()[1] == PORT_LOWER@);
                }
                return Err(e);
            },
        }
        match self.set_param_line(PORT_UPPER) {
            Ok(l) => crate::helpers::push_string(&mut lines, l),
            Err(e) => {
                proof {
                    assert(Self::section_keys()[2] == PORT_UPPER@);
                }
                return Err(e);
            },
        }
        match self.set_param_line(KNOWN_PEER_ID) {
            Ok(l) => crate::helpers::push_string(&mut lines, l),
            Err(e) => {
                proof {
                    assert(Self::section_keys()[3] == KNOWN_PEER_ID@);
                }
                return Err(e);
            },
        }
        crate::helpers::push_string(&mut lines, String::from_str("  Context:"));
        match self.set_param_line(CONTEXT) {
            Ok(l) => crate::helpers::push_string(&mut lines, l),
            Err(e) => {
                proof {
                    assert(Self::section_keys()[4] == CONTEXT@);
                }
                return Err(e);
            },
        }
        match self.set_param_line(USE_CACHE) {
            Ok(l) => crate::helpers::push_string(&mut lines, l),
            Err(e) => {
                proof {
                    assert(Self::section_keys()[5] == USE_CACHE@);
                }
                return Err(e);
            },
        }
        match self.set_param_line(ENFORCE_CACHE_RECREATION) {
            Ok(l) => crate::helpers::push_string(&mut lines, l),
            Err(e) => {
                proof {
                    assert(Self::section_keys()[6] == ENFORCE_CACHE_RECREATION@);
                }
                return Err(e);
            },
        }
        match self.set_param_line(INITIAL_RENT_RATE) {
            Ok(l) => crate::helpers::push_string(&mut lines, l),
            Err(e) => {
                proof {
                    assert(Self::section_keys()[7] == INITIAL_RENT_RATE@);
                }
                return Err(e);
            },
        }
        match self.set_param_line(INITIAL_SPREADING_RATE_LOWERBOUND) {
            Ok(l) => crate::helpers::push_string(&mut lines, l),
            Err(e) => {
                proof {
                    assert(Self::section_keys()[8] == INITIAL_SPREADING_RATE_LOWERBOUND@);
                }
                return Err(e);
            },
        }
        match self.set_param_line(INITIAL_SPREADING_RATE_UPPERBOUND) {
            Ok(l) => crate::helpers::push_string(&mut lines, l),
            Err(e) => {
                proof {
                    assert(Self::section_keys()[9] == INITIAL_SPREADING_RATE_UPPERBOUND@);
                }
                return Err(e);
            },
        }
        crate::helpers::push_string(&mut lines, String::from_str("  Query:"));
        match self.set_param_line(MAX_ANSWERS) {
            Ok(l) => crate::helpers::push_string(&mut lines, l),
            Err(e) => {
                proof {
                    assert(Self::section_keys()[10] == MAX_ANSWERS@);
                }
                return Err(e);
            },
        }
        match self.set_param_line(MAX_BUNDLE_SIZE) {
            Ok(l) => crate::helpers::push_string(&mut lines, l),
            Err(e) => {
                proof {
                    assert(Self::section_keys()[11] == MAX_BUNDLE_SIZE@);
                }
                return Err(e);
            },
        }
        match self.set_param_line(UNIQUE_ASSIGNMENT_FLAG) {
            Ok(l) => crate::helpers::push_string(&mut lines, l),
            Err(e) => {
                proof {
                    assert(Self::section_keys()[12] == UNIQUE_ASSIGNMENT_FLAG@);
                }
                return Err(e);
            },
        }
        match self.set_param_line(POSITIVE_IMPORTANCE_FLAG) {
            Ok(l) => crate::helpers::push_string(&mut lines, l),
            Err(e) => {
                proof {
                    assert(Self::section_keys()[13] == POSITIVE_IMPORTANCE_FLAG@);
                }
                return Err(e);
            },
        }
        match self.set_param_line(ATTENTION_UPDATE_FLAG) {
            Ok(l) => crate::helpers::push_string(&mut lines, l),
            Err(e) => {
                proof {
                    assert(Self::section_keys()[14] == ATTENTION_UPDATE_FLAG@);
                }
                return Err(e);
            },
        }
        match self.set_param_line(COUNT_FLAG) {
            Ok(l) => crate::helpers::push_string(&mut lines, l),
            Err(e) => {
                proof {
                    assert(Self::section_keys()[15] == COUNT_FLAG@);
                }
                return Err(e);
            },
        }
        match self.set_param_line(POPULATE_METTA_MAPPING) {
            Ok(l) => crate::helpers::push_string(&mut lines, l),
            Err(e) => {
                proof {
                    assert(Self::section_keys()[16] == POPULATE_METTA_MAPPING@);
                }
                return Err(e);
            },
        }
        match self.set_param_line(USE_METTA_AS_QUERY_TOKENS) {
            Ok(l) => crate::helpers::push_string(&mut lines, l),
            Err(e) => {
                proof {
                    assert(Self::section_keys()[17] == USE_METTA_AS_QUERY_TOKENS@);
                }
                return Err(e);
            },
        }
        crate::helpers::push_string(&mut lines, String::from_str("  Evolution:"));
        match self.set_param_line(POPULATION_SIZE) {
            Ok(l) => crate::helpers::push_string(&mut lines, l),
            Err(e) => {
                proof {
                    assert(Self::section_keys()[18] == POPULATION_SIZE@);
                }
                return Err(e);
            },
        }
        match self.set_param_line(MAX_GENERATIONS) {
            Ok(l) => crate::helpers::push_string(&mut lines, l),
            Err(e) => {
                proof {
                    assert(Self::section_keys()[19] == MAX_GENERATIONS@);
                }
                return Err(e);
            },
        }
        match self.set_param_line(ELITISM_RATE) {
            Ok(l) => crate::helpers::push_string(&mut lines, l),
            Err(e) => {
                proof {
                    assert(Self::section_keys()[20] == ELITISM_RATE@);
                }
                return Err(e);
            },
        }
        match self.set_param_line(SELECTION_RATE) {
            Ok(l) => crate::helpers::push_string(&mut lines, l),
            Err(e) => {
                proof {
                    assert(Self::section_keys()[21] == SELECTION_RATE@);
                }
                return Err(e);
            },
        }
        match self.set_param_line(TOTAL_ATTENTION_TOKENS) {
            Ok(l) => crate::helpers::push_string(&mut lines, l),
            Err(e) => {
                proof {
                    assert(Self::section_keys()[22] == TOTAL_ATTENTION_TOKENS@);
                }
                return Err(e);
            },
        }
        proof {
            assert forall|i: int|
                0 <= i < Self::section_keys().len() implies has_key(
                self@,
                #[trigger] Self::section_keys()[i],
            ) by {
            }
        }
        Ok(lines)
    }
}

} // verus!
