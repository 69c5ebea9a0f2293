//! A JSON value as the API returns it, and its short rendering as text.

use vstd::prelude::*;
use crate::text::{decimal, entries_in_key_order, entry_keys, grouped_decimal, keys_ascending, push_unsigned, str_eq};
use crate::util::thousands;

verus! {

/// A JSON number: an `i64`, or any other number kept as the text that
/// `serde_json` writes for it.
#[derive(Debug)]
pub enum JsonNumber {
    Int(i64),
    Other(String),
}

/// A JSON value. The entries of an object come in the order in which the
/// map iterates them (by key, for `serde_json`'s default map).
#[derive(Debug)]
pub enum JsonValue {
    Null,
    Bool(bool),
    Number(JsonNumber),
    Str(String),
    Array(Vec<JsonValue>),
    Object(Vec<(String, JsonValue)>),
}

/// The short text of a JSON value: `—` for null, `oui`/`non` for booleans,
/// integers with thousands separators, other numbers as written, strings
/// as they are, the size of an array, and `key: value` pairs of an object
/// joined by `, `.
pub open spec fn value_text(v: JsonValue) -> Seq<char>
    decreases v,
{
    match v {
        JsonValue::Null => "—"@,
        JsonValue::Bool(b) => if b { "oui"@ } else { "non"@ },
        JsonValue::Number(JsonNumber::Int(i)) => grouped_decimal(i as int),
        JsonValue::Number(JsonNumber::Other(t)) => t@,
        JsonValue::Str(s) => s@,
        JsonValue::Array(a) => decimal(a@.len() as int) + " élément(s)"@,
        JsonValue::Object(o) => entries_text(o@),
    }
}

/// The `key: value` texts of object entries joined by `, `.
pub open spec fn entries_text(es: Seq<(String, JsonValue)>) -> Seq<char>
    decreases es,
{
    if es.len() == 0 {
        Seq::empty()
    } else if es.len() == 1 {
        es[0].0@ + ": "@ + value_text(es[0].1)
    } else {
        entries_text(es.drop_last()) + ", "@ + es.last().0@ + ": "@ + value_text(es.last().1)
    }
}

/// Every object within a JSON value, at any depth, has its entries in
/// strictly increasing key order, as `serde_json`'s default map holds them.
pub open spec fn json_in_key_order(v: JsonValue) -> bool
    decreases v,
{
    match v {
        JsonValue::Array(a) => items_in_key_order(a@),
        JsonValue::Object(o) => keys_ascending(entry_keys(o@)) && values_in_key_order(o@),
        _ => true,
    }
}

/// Every item of an array is in key order.
pub open spec fn items_in_key_order(a: Seq<JsonValue>) -> bool
    decreases a,
{
    if a.len() == 0 {
        true
    } else {
        items_in_key_order(a.drop_last()) && json_in_key_order(a.last())
    }
}

/// Every value of an object's entries is in key order.
pub open spec fn values_in_key_order(es: Seq<(String, JsonValue)>) -> bool
    decreases es,
{
    if es.len() == 0 {
        true
    } else {
        values_in_key_order(es.drop_last()) && json_in_key_order(es.last().1)
    }
}

/// In an object whose keys come in order, the value under a key is the
/// value of the entry holding that key, and there is none when no entry
/// holds it.
pub proof fn lemma_get_in_key_order(o: Seq<(String, JsonValue)>, key: Seq<char>)
    requires
        keys_ascending(entry_keys(o)),
    ensures
        forall|i: int| 0 <= i < o.len() && (#[trigger] o[i]).0@ == key ==> entry_with_key(o, key) == Some(o[i].1),
        (forall|i: int| 0 <= i < o.len() ==> (#[trigger] o[i]).0@ != key) ==> entry_with_key(o, key) is None,
    decreases o.len(),
{
    if o.len() > 0 {
        let t = o.drop_first();
        assert forall|a: int, b: int| 0 <= a < b < entry_keys(t).len() implies crate::text::text_lt(
            #[trigger] entry_keys(t)[a],
            #[trigger] entry_keys(t)[b],
        ) by {
            assert(entry_keys(t)[a] == entry_keys(o)[a + 1]);
            assert(entry_keys(t)[b] == entry_keys(o)[b + 1]);
        }
        lemma_get_in_key_order(t, key);
        crate::text::lemma_ascending_keys_unique(entry_keys(o));
        assert forall|i: int| 0 <= i < o.len() && (#[trigger] o[i]).0@ == key implies entry_with_key(o, key) == Some(o[i].1) by {
            if i > 0 {
                assert(t[i - 1] == o[i]);
                if o[0].0@ == key {
                    assert(entry_keys(o)[0] == entry_keys(o)[i]);
                }
            }
        }
        if forall|i: int| 0 <= i < o.len() ==> (#[trigger] o[i]).0@ != key {
            assert(o[0].0@ != key);
            assert forall|i: int| 0 <= i < t.len() implies (#[trigger] t[i]).0@ != key by {
                assert(t[i] == o[i + 1]);
            }
        }
    }
}

impl JsonValue {
    /// Whether every object within the value has its entries in key order.
    pub fn in_key_order(&self) -> (r: bool)
        ensures
            r == json_in_key_order(*self),
        decreases self,
    {
        match self {
            JsonValue::Array(a) => {
                let mut i: usize = 0;
                while i < a.len()
                    invariant
                        i <= a@.len(),
                        *self == JsonValue::Array(*a),
                        items_in_key_order(a@.take(i as int)),
                    decreases a.len() - i,
                {
                    proof {
                        assert(decreases_to!(*self => (*self)->Array_0));
                        assert((*self)->Array_0 == *a);
                        assert(decreases_to!(*a => a@));
                        assert(decreases_to!(a@ => a@[i as int]));
                    }
                    let ok = a[i].in_key_order();
                    assert(a@.take(i + 1).drop_last() =~= a@.take(i as int));
                    if !ok {
                        proof {
                            if items_in_key_order(a@) {
                                lemma_items_prefix(a@, i + 1);
                            }
                        }
                        return false;
                    }
                    i = i + 1;
                }
                assert(a@.take(a.len() as int) =~= a@);
                true
            },
            JsonValue::Object(o) => {
                if !entries_in_key_order(o) {
                    return false;
                }
                let mut i: usize = 0;
                while i < o.len()
                    invariant
                        i <= o@.len(),
                        *self == JsonValue::Object(*o),
                        values_in_key_order(o@.take(i as int)),
                    decreases o.len() - i,
                {
                    proof {
                        let ghost e = o@[i as int];
                        assert(decreases_to!(*self => (*self)->Object_0));
                        assert((*self)->Object_0 == *o);
                        assert(decreases_to!(*o => o@));
                        assert(decreases_to!(o@ => e));
                        assert(decreases_to!(e => e.1));
                    }
                    let ok = o[i].1.in_key_order();
                    assert(o@.take(i + 1).drop_last() =~= o@.take(i as int));
                    if !ok {
                        proof {
                            if values_in_key_order(o@) {
                                lemma_values_prefix(o@, i + 1);
                            }
                        }
                        return false;
                    }
                    i = i + 1;
                }
                assert(o@.take(o.len() as int) =~= o@);
                true
            },
            _ => true,
        }
    }
}

proof fn lemma_items_prefix(a: Seq<JsonValue>, k: int)
    requires
        0 <= k <= a.len(),
        items_in_key_order(a),
    ensures
        items_in_key_order(a.take(k)),
    decreases a.len(),
{
    if k < a.len() {
        assert(a.drop_last().take(k) =~= a.take(k));
        lemma_items_prefix(a.drop_last(), k);
    } else {
        assert(a.take(k) =~= a);
    }
}

proof fn lemma_values_prefix(es: Seq<(String, JsonValue)>, k: int)
    requires
        0 <= k <= es.len(),
        values_in_key_order(es),
    ensures
        values_in_key_order(es.take(k)),
    decreases es.len(),
{
    if k < es.len() {
        assert(es.drop_last().take(k) =~= es.take(k));
        lemma_values_prefix(es.drop_last(), k);
    } else {
        assert(es.take(k) =~= es);
    }
}

/// Renders any JSON value as a short readable text.
pub fn fmt_value(v: &JsonValue) -> (s: String)
    ensures
        s@ == value_text(*v),
    decreases v,
{
    match v {
        JsonValue::Null => String::from_str("—"),
        JsonValue::Bool(b) => if *b { String::from_str("oui") } else { String::from_str("non") },
        JsonValue::Number(JsonNumber::Int(i)) => thousands(*i),
        JsonValue::Number(JsonNumber::Other(t)) => t.clone(),
        JsonValue::Str(s) => s.clone(),
        JsonValue::Array(a) => {
            let mut s = String::new();
            push_unsigned(&mut s, a.len() as u64);
            s.append(" élément(s)");
            s
        },
        JsonValue::Object(o) => {
            let mut s = String::new();
            let mut i: usize = 0;
            while i < o.len()
                invariant
                    i <= o@.len(),
                    *v == JsonValue::Object(*o),
                    s@ == entries_text(o@.take(i as int)),
                decreases o.len() - i,
            {
                let ghost before = o@.take(i as int);
                if i > 0 {
                    s.append(", ");
                }
                s.append(o[i].0.as_str());
                s.append(": ");
                proof {
                    let ghost e = o@[i as int];
                    assert(decreases_to!(*v => (*v)->Object_0));
                    assert((*v)->Object_0 == *o);
                    assert(decreases_to!(*o => o@));
                    assert(decreases_to!(o@ => e));
                    assert(decreases_to!(e => e.1));
                    assert(decreases_to!(*v => e.1));
                }
                let t = fmt_value(&o[i].1);
                s.append(t.as_str());
                i = i + 1;
                assert(o@.take(i as int).drop_last() =~= before);
                assert(s@ =~= entries_text(o@.take(i as int)));
            }
            assert(o@.take(o.len() as int) =~= o@);
            s
        },
    }
}

/// The value under `key` in an object (`Value::get`): the first entry with
/// that key; `None` for a missing key or a value that is not an object.
pub open spec fn value_get(v: JsonValue, key: Seq<char>) -> Option<JsonValue> {
    match v {
        JsonValue::Object(o) => entry_with_key(o@, key),
        _ => None,
    }
}

/// The value of the first entry whose key is `key`.
pub open spec fn entry_with_key(es: Seq<(String, JsonValue)>, key: Seq<char>) -> Option<JsonValue>
    decreases es.len(),
{
    if es.len() == 0 {
        None
    } else if es[0].0@ == key {
        Some(es[0].1)
    } else {
        entry_with_key(es.drop_first(), key)
    }
}

impl JsonValue {
    /// The value under `key`, when this is an object holding that key.
    pub fn get(&self, key: &str) -> (r: Option<&JsonValue>)
        ensures
            match value_get(*self, key@) {
                Some(x) => r is Some && *r->0 == x,
                None => r is None,
            },
    {
        match self {
            JsonValue::Object(o) => {
                let mut i: usize = 0;
                assert(o@.skip(0) =~= o@);
                while i < o.len()
                    invariant
                        i <= o@.len(),
                        *self == JsonValue::Object(*o),
                        entry_with_key(o@, key@) == entry_with_key(o@.skip(i as int), key@),
                    decreases o.len() - i,
                {
                    assert(o@.skip(i as int).drop_first() =~= o@.skip(i + 1));
                    assert(o@.skip(i as int)[0] == o@[i as int]);
                    if str_eq(o[i].0.as_str(), key) {
                        return Some(&o[i].1);
                    }
                    i = i + 1;
                }
                None
            },
            _ => None,
        }
    }

    /// The integer, when this is a number that fits in an `i64`.
    pub fn as_i64(&self) -> (r: Option<i64>)
        ensures
            r == value_i64(*self),
    {
        match self {
            JsonValue::Number(JsonNumber::Int(i)) => Some(*i),
            _ => None,
        }
    }

    /// The text, when this is a string.
    pub fn as_str(&self) -> (r: Option<&str>)
        ensures
            match *self {
                JsonValue::Str(s) => r is Some && r->0@ == s@,
                _ => r is None,
            },
    {
        match self {
            JsonValue::Str(s) => Some(s.as_str()),
            _ => None,
        }
    }

    /// The entries, when this is an object.
    pub fn as_object(&self) -> (r: Option<&Vec<(String, JsonValue)>>)
        ensures
            match *self {
                JsonValue::Object(o) => r is Some && *r->0 == o,
                _ => r is None,
            },
    {
        match self {
            JsonValue::Object(o) => Some(o),
            _ => None,
        }
    }
}

/// The integer of a JSON value that is an `i64` number.
pub open spec fn value_i64(v: JsonValue) -> Option<i64> {
    match v {
        JsonValue::Number(JsonNumber::Int(i)) => Some(i),
        _ => None,
    }
}

} // verus!
