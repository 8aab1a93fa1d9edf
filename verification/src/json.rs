//! The structured value tree that decoded frames carry: a JSON-like value
//! with null, booleans, integers, text, lists and key/value objects.

use vstd::prelude::*;
use crate::text::str_eq;

verus! {

/// A structured value. Query-string bodies decode to `Null`, `Text` or a flat
/// `Object`; embedded `payload`/`options` sub-objects may use every variant.
/// Numbers outside the signed 64-bit range are carried as their decimal text.
#[derive(Debug, PartialEq)]
pub enum JsonValue {
    Null,
    Bool(bool),
    Int(i64),
    Text(String),
    List(Vec<JsonValue>),
    Object(Vec<(String, JsonValue)>),
}

/// First entry with the given key, if any.
pub open spec fn obj_lookup(entries: Seq<(String, JsonValue)>, key: Seq<char>) -> Option<
    JsonValue,
>
    decreases entries.len(),
{
    if entries.len() == 0 {
        None
    } else if entries[0].0@ == key {
        Some(entries[0].1)
    } else {
        obj_lookup(entries.skip(1), key)
    }
}

/// Finds the first entry with the given key.
pub fn obj_get<'a>(entries: &'a Vec<(String, JsonValue)>, key: &str) -> (r: Option<
    &'a JsonValue,
>)
    ensures
        match r {
            Some(v) => obj_lookup(entries@, key@) == Some(*v),
            None => obj_lookup(entries@, key@) is None,
        },
{
    let n = entries.len();
    let mut i: usize = 0;
    proof {
        assert(entries@.skip(0) =~= entries@);
    }
    while i < n
        invariant
            n == entries@.len(),
            i <= n,
            obj_lookup(entries@.skip(i as int), key@) == obj_lookup(entries@, key@),
        decreases n - i,
    {
        if str_eq(entries[i].0.as_str(), key) {
            proof {
                assert(entries@.skip(i as int)[0] == entries@[i as int]);
            }
            return Some(&entries[i].1);
        }
        proof {
            assert(entries@.skip(i as int)[0] == entries@[i as int]);
            assert(entries@.skip(i as int).skip(1) =~= entries@.skip(i + 1));
        }
        i += 1;
    }
    proof {
        assert(entries@.skip(n as int) =~= Seq::<(String, JsonValue)>::empty());
    }
    None
}

/// The entries that survive stripping top-level nulls, in order.
pub open spec fn non_null_entries(es: Seq<(String, JsonValue)>) -> Seq<(String, JsonValue)>
    decreases es.len(),
{
    if es.len() == 0 {
        Seq::empty()
    } else if es.last().1 is Null {
        non_null_entries(es.drop_last())
    } else {
        non_null_entries(es.drop_last()).push(es.last())
    }
}

/// Strips entries whose value is null from a top-level object; every other
/// value passes through unchanged.
pub fn remove_null(value: JsonValue) -> (r: JsonValue)
    ensures
        value matches JsonValue::Object(es) ==> (r matches JsonValue::Object(out) && out@
            == non_null_entries(es@)),
        !(value matches JsonValue::Object(es)) ==> r == value,
{
    match value {
        JsonValue::Object(mut es) => {
            let ghost orig = es@;
            let mut out: Vec<(String, JsonValue)> = Vec::new();
            let ghost mut i: int = 0;
            while es.len() > 0
                invariant
                    0 <= i <= orig.len(),
                    es@ == orig.skip(i),
                    out@ == non_null_entries(orig.take(i)),
                decreases es@.len(),
            {
                let e = es.remove(0);
                proof {
                    assert(e == orig[i]);
                    assert(es@ =~= orig.skip(i + 1));
                    assert(orig.take(i + 1).drop_last() =~= orig.take(i));
                    assert(orig.take(i + 1).last() == orig[i]);
                }
                let keep = match &e.1 {
                    JsonValue::Null => false,
                    _ => true,
                };
                if keep {
                    out.push(e);
                }
                proof {
                    i = i + 1;
                }
            }
            proof {
                assert(orig.take(orig.len() as int) =~= orig);
            }
            JsonValue::Object(out)
        },
        other => other,
    }
}

} // verus!
