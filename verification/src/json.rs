//! A plain representation of the JSON values that occur inside a notebook,
//! and the MIME payload resolver: the best-effort extraction of a textual
//! representation from one such value.

use vstd::prelude::*;

verus! {

use vstd::string::StringExecFns;
use crate::text::str_eq;

broadcast use vstd::std_specs::vec::group_vec_axioms;

/// A parsed JSON value, held as plain data.
///
/// A number is carried as its decimal text, and an object carries both its
/// entries in order and its compact serialization, exactly as the JSON
/// reader that produced the value prints them.
#[derive(Debug)]
pub enum JsonValue {
    Null,
    Bool(bool),
    Text(String),
    Num(String),
    Arr(Vec<JsonValue>),
    Obj(Vec<(String, JsonValue)>, String),
}

/// The mathematical model of a `JsonValue`.
pub ghost enum JsonV {
    Null,
    Bool(bool),
    Text(Seq<char>),
    Num(Seq<char>),
    Arr(Seq<JsonV>),
    Obj(Seq<(Seq<char>, JsonV)>, Seq<char>),
}

/// The models of the first `n` elements, in order.
pub open spec fn json_views(items: Vec<JsonValue>, n: int) -> Seq<JsonV>
    decreases items, n,
{
    if n <= 0 || n > items@.len() {
        Seq::empty()
    } else {
        json_views(items, n - 1).push(json_view(items[n - 1]))
    }
}

/// The models of the first `n` object entries, in order.
pub open spec fn entry_views(entries: Vec<(String, JsonValue)>, n: int) -> Seq<
    (Seq<char>, JsonV),
>
    decreases entries, n,
{
    if n <= 0 || n > entries@.len() {
        Seq::empty()
    } else {
        entry_views(entries, n - 1).push((entries[n - 1].0@, json_view(entries[n - 1].1)))
    }
}

/// The model of a `JsonValue`.
pub open spec fn json_view(v: JsonValue) -> JsonV
    decreases v,
{
    match v {
        JsonValue::Null => JsonV::Null,
        JsonValue::Bool(b) => JsonV::Bool(b),
        JsonValue::Text(s) => JsonV::Text(s@),
        JsonValue::Num(t) => JsonV::Num(t@),
        JsonValue::Arr(items) => JsonV::Arr(json_views(items, items@.len() as int)),
        JsonValue::Obj(entries, compact) => JsonV::Obj(
            entry_views(entries, entries@.len() as int),
            compact@,
        ),
    }
}

impl View for JsonValue {
    type V = JsonV;

    open spec fn view(&self) -> JsonV {
        json_view(*self)
    }
}

pub proof fn lemma_json_views_at(items: Vec<JsonValue>, n: int)
    requires
        0 <= n <= items@.len(),
    ensures
        json_views(items, n).len() == n,
        forall|j: int| 0 <= j < n ==> json_views(items, n)[j] == json_view(items@[j]),
    decreases n,
{
    if n > 0 {
        lemma_json_views_at(items, n - 1);
    }
}

pub proof fn lemma_entry_views_at(entries: Vec<(String, JsonValue)>, n: int)
    requires
        0 <= n <= entries@.len(),
    ensures
        entry_views(entries, n).len() == n,
        forall|j: int| 0 <= j < n ==> entry_views(entries, n)[j] == (
        entries@[j].0@,
        json_view(entries@[j].1),
        ),
    decreases n,
{
    if n > 0 {
        lemma_entry_views_at(entries, n - 1);
    }
}

/// The value under the first entry whose key is `key`, if any.
pub open spec fn entries_lookup(entries: Seq<(Seq<char>, JsonV)>, key: Seq<char>) -> Option<JsonV>
    decreases entries.len(),
{
    if entries.len() == 0 {
        None
    } else if entries[0].0 == key {
        Some(entries[0].1)
    } else {
        entries_lookup(entries.drop_first(), key)
    }
}

/// The text a `Some` resolution carries, or nothing for `None`.
pub open spec fn opt_text_or_empty(o: Option<Seq<char>>) -> Seq<char> {
    match o {
        Some(t) => t,
        None => Seq::empty(),
    }
}

/// The best-effort textual representation of a JSON value: a string is
/// itself, a number its decimal text, a boolean `true`/`false`, an array the
/// concatenation of its elements' texts (unresolvable elements skipped), an
/// object its compact serialization; `null` has none.
pub open spec fn text_of(v: JsonV) -> Option<Seq<char>>
    decreases v,
{
    match v {
        JsonV::Null => None,
        JsonV::Bool(b) => Some(
            if b {
                "true"@
            } else {
                "false"@
            },
        ),
        JsonV::Text(s) => Some(s),
        JsonV::Num(t) => Some(t),
        JsonV::Arr(items) => Some(arr_text(items, items.len() as int)),
        JsonV::Obj(entries, compact) => Some(compact),
    }
}

/// The concatenated texts of the first `n` array elements, skipping the
/// elements that resolve to no text.
pub open spec fn arr_text(items: Seq<JsonV>, n: int) -> Seq<char>
    decreases items, n,
{
    if n <= 0 || n > items.len() {
        Seq::empty()
    } else {
        arr_text(items, n - 1) + opt_text_or_empty(text_of(items[n - 1]))
    }
}

/// Looks a key up among an object's entries, first match wins.
pub fn json_obj_get<'a>(entries: &'a Vec<(String, JsonValue)>, key: &str) -> (r: Option<
    &'a JsonValue,
>)
    ensures
        r is Some <==> entries_lookup(entry_views(*entries, entries@.len() as int), key@) is Some,
        r is Some ==> (*r->0)@ == entries_lookup(
            entry_views(*entries, entries@.len() as int),
            key@,
        )->0,
{
    let ghost evs = entry_views(*entries, entries@.len() as int);
    proof {
        lemma_entry_views_at(*entries, entries@.len() as int);
        assert(evs.skip(0) =~= evs);
    }
    let mut i: usize = 0;
    while i < entries.len()
        invariant
            i <= entries@.len(),
            evs == entry_views(*entries, entries@.len() as int),
            evs.len() == entries@.len(),
            forall|j: int| 0 <= j < evs.len() ==> evs[j] == (
            entries@[j].0@,
            json_view(entries@[j].1),
            ),
            entries_lookup(evs, key@) == entries_lookup(evs.skip(i as int), key@),
        decreases entries@.len() - i,
    {
        proof {
            assert(evs.skip(i as int)[0] == evs[i as int]);
        }
        if str_eq(entries[i].0.as_str(), key) {
            return Some(&entries[i].1);
        }
        proof {
            assert(evs.skip(i as int).drop_first() =~= evs.skip(i as int + 1));
        }
        i = i + 1;
    }
    None
}

/// Resolves a JSON value to text as `text_of` describes, or to nothing.
pub fn value_to_text(value: &JsonValue) -> (r: Option<String>)
    ensures
        r is Some <==> text_of(value@) is Some,
        r is Some ==> r->0@ == text_of(value@)->0,
    decreases *value,
{
    match value {
        JsonValue::Null => None,
        JsonValue::Bool(b) => Some(
            String::from_str(
                if *b {
                    "true"
                } else {
                    "false"
                },
            ),
        ),
        JsonValue::Text(s) => Some(s.clone()),
        JsonValue::Num(t) => Some(t.clone()),
        JsonValue::Obj(_, compact) => Some(compact.clone()),
        JsonValue::Arr(items) => {
            let ghost vs = json_views(*items, items@.len() as int);
            proof {
                lemma_json_views_at(*items, items@.len() as int);
            }
            let mut acc = String::new();
            let mut i: usize = 0;
            while i < items.len()
                invariant
                    *value == JsonValue::Arr(*items),
                    vs == json_views(*items, items@.len() as int),
                    vs.len() == items@.len(),
                    forall|j: int| 0 <= j < vs.len() ==> vs[j] == json_view(items@[j]),
                    i <= items@.len(),
                    acc@ == arr_text(vs, i as int),
                decreases items@.len() - i,
            {
                proof {
                    assert(decreases_to!(*value => value->Arr_0));
                    assert(value->Arr_0 == *items);
                    assert(decreases_to!(*items => items@[i as int]));
                    assert(decreases_to!(*value => items@[i as int]));
                }
                match value_to_text(&items[i]) {
                    Some(s) => acc.append(s.as_str()),
                    None => (),
                }
                i = i + 1;
            }
            Some(acc)
        }
    }
}

/// Rebuilds an owned copy of a JSON value; the copy has the same model.
pub fn clone_json(v: &JsonValue) -> (r: JsonValue)
    ensures
        r@ == v@,
    decreases *v,
{
    match v {
        JsonValue::Null => JsonValue::Null,
        JsonValue::Bool(b) => JsonValue::Bool(*b),
        JsonValue::Text(s) => JsonValue::Text(s.clone()),
        JsonValue::Num(t) => JsonValue::Num(t.clone()),
        JsonValue::Arr(items) => {
            let mut out: Vec<JsonValue> = Vec::new();
            let mut i: usize = 0;
            while i < items.len()
                invariant
                    *v == JsonValue::Arr(*items),
                    out@.len() == i,
                    i <= items@.len(),
                    forall|j: int| 0 <= j < i ==> out@[j]@ == items@[j]@,
                decreases items@.len() - i,
            {
                proof {
                    assert(decreases_to!(*v => v->Arr_0));
                    assert(v->Arr_0 == *items);
                    assert(decreases_to!(*items => items@[i as int]));
                    assert(decreases_to!(*v => items@[i as int]));
                }
                let c = clone_json(&items[i]);
                out.push(c);
                i = i + 1;
            }
            proof {
                lemma_json_views_at(*items, items@.len() as int);
                lemma_json_views_at(out, out@.len() as int);
                assert(json_views(out, out@.len() as int) =~= json_views(
                    *items,
                    items@.len() as int,
                ));
            }
            JsonValue::Arr(out)
        }
        JsonValue::Obj(entries, compact) => {
            proof {
                assert(decreases_to!(*v => v->Obj_0));
                assert(v->Obj_0 == *entries);
            }
            let out = clone_entries(entries);
            JsonValue::Obj(out, compact.clone())
        }
    }
}

/// Rebuilds an owned copy of an object's entries, preserving their models.
pub fn clone_entries(entries: &Vec<(String, JsonValue)>) -> (r: Vec<(String, JsonValue)>)
    ensures
        r@.len() == entries@.len(),
        entry_views(r, r@.len() as int) == entry_views(*entries, entries@.len() as int),
    decreases *entries,
{
    let mut out: Vec<(String, JsonValue)> = Vec::new();
    let mut i: usize = 0;
    while i < entries.len()
        invariant
            out@.len() == i,
            i <= entries@.len(),
            forall|j: int| 0 <= j < i ==> out@[j].0@ == entries@[j].0@ && out@[j].1@
                == entries@[j].1@,
        decreases entries@.len() - i,
    {
        proof {
            assert(decreases_to!(*entries => entries@[i as int]));
            assert(decreases_to!(entries@[i as int] => entries@[i as int].1));
            assert(decreases_to!(*entries => entries@[i as int].1));
        }
        let k = entries[i].0.clone();
        let c = clone_json(&entries[i].1);
        out.push((k, c));
        i = i + 1;
    }
    proof {
        lemma_entry_views_at(*entries, entries@.len() as int);
        lemma_entry_views_at(out, out@.len() as int);
        assert(entry_views(out, out@.len() as int) =~= entry_views(
            *entries,
            entries@.len() as int,
        ));
    }
    out
}

} // verus!
