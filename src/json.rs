//! An insertion-ordered JSON tree and its mathematical model.
use vstd::prelude::*;

verus! {

/// A JSON value. Objects keep their entries in insertion order; numbers keep
/// the text they were written with.
#[derive(Debug)]
pub enum Json {
    Null,
    Bool(bool),
    Number(String),
    String(String),
    Array(Vec<Json>),
    Object(Vec<(String, Json)>),
}

/// The mathematical model of a [`Json`] value.
pub enum JsonModel {
    Null,
    Bool(bool),
    Number(Seq<char>),
    String(Seq<char>),
    Array(Seq<JsonModel>),
    Object(Seq<(Seq<char>, JsonModel)>),
}

impl View for Json {
    type V = JsonModel;

    open spec fn view(&self) -> JsonModel
        decreases self,
    {
        match self {
            Json::Null => JsonModel::Null,
            Json::Bool(b) => JsonModel::Bool(*b),
            Json::Number(n) => JsonModel::Number(n@),
            Json::String(s) => JsonModel::String(s@),
            Json::Array(items) => JsonModel::Array(
                Seq::new(
                    items.len() as nat,
                    |i: int|
                        if 0 <= i < items.len() {
                            items[i].view()
                        } else {
                            JsonModel::Null
                        },
                ),
            ),
            Json::Object(entries) => JsonModel::Object(
                Seq::new(
                    entries.len() as nat,
                    |i: int|
                        (
                            entries[i].0@,
                            if 0 <= i < entries.len() {
                                entries[i].1.view()
                            } else {
                                JsonModel::Null
                            },
                        ),
                ),
            ),
        }
    }
}


/// The model of a sequence of entries.
pub open spec fn entries_model(e: Seq<(String, Json)>) -> Seq<(Seq<char>, JsonModel)> {
    Seq::new(e.len(), |i: int| (e[i].0@, e[i].1@))
}

/// The model of a sequence of values.
pub open spec fn items_model(e: Seq<Json>) -> Seq<JsonModel> {
    Seq::new(e.len(), |i: int| e[i]@)
}

/// The model of an object is the model of its entries, in order.
pub proof fn lemma_object_view(entries: Vec<(String, Json)>)
    ensures
        Json::Object(entries)@ == JsonModel::Object(entries_model(entries@)),
{
    let j = Json::Object(entries);
    let m = j@->Object_0;
    assert(m.len() == entries@.len());
    assert forall|i: int| 0 <= i < m.len() implies #[trigger] m[i] == entries_model(entries@)[i] by {
        assert(entries[i] == entries@[i]);
    }
    assert(entries_model(entries@) =~= m);
}

/// The model of an array is the model of its items, in order.
pub proof fn lemma_array_view(items: Vec<Json>)
    ensures
        Json::Array(items)@ == JsonModel::Array(items_model(items@)),
{
    let j = Json::Array(items);
    let m = j@->Array_0;
    assert(m.len() == items.len());
    assert forall|i: int| 0 <= i < m.len() implies #[trigger] m[i] == items_model(items@)[i] by {
        assert(items[i] == items@[i]);
    }
    assert(items_model(items@) =~= m);
}

/// The value of the first entry whose key is `k`.
pub open spec fn obj_get(m: Seq<(Seq<char>, JsonModel)>, k: Seq<char>) -> Option<JsonModel>
    decreases m.len(),
{
    if m.len() == 0 {
        None
    } else if m[0].0 == k {
        Some(m[0].1)
    } else {
        obj_get(m.drop_first(), k)
    }
}

/// Whether some entry has the key `k`.
pub open spec fn has_key(m: Seq<(Seq<char>, JsonModel)>, k: Seq<char>) -> bool {
    obj_get(m, k) is Some
}

/// The entries with the value under `k` replaced where `k` is present, and
/// with `(k, v)` appended where it is not.
pub open spec fn obj_set(m: Seq<(Seq<char>, JsonModel)>, k: Seq<char>, v: JsonModel) -> Seq<(Seq<char>, JsonModel)>
    decreases m.len(),
{
    if m.len() == 0 {
        seq![(k, v)]
    } else if m[0].0 == k {
        m.update(0, (k, v))
    } else {
        seq![m[0]] + obj_set(m.drop_first(), k, v)
    }
}

/// The strings among `a`, in order.
pub open spec fn strings_of(a: Seq<JsonModel>) -> Seq<Seq<char>>
    decreases a.len(),
{
    if a.len() == 0 {
        Seq::empty()
    } else {
        let p = strings_of(a.drop_last());
        match a.last() {
            JsonModel::String(s) => p.push(s),
            _ => p,
        }
    }
}

/// Whether two texts are equal.
pub fn same_text(a: &str, b: &str) -> (r: bool)
    ensures
        r == (a@ == b@),
{
    a.to_owned() == b.to_owned()
}

impl Json {
    /// A copy of this value.
    pub fn deep_copy(&self) -> (r: Json)
        ensures
            r@ == self@,
        decreases self,
    {
        match self {
            Json::Null => Json::Null,
            Json::Bool(b) => Json::Bool(*b),
            Json::Number(n) => Json::Number(n.clone()),
            Json::String(s) => Json::String(s.clone()),
            Json::Array(items) => {
                let out = copy_items(items);
                proof {
                    lemma_array_view(out);
                    lemma_array_view(*items);
                }
                Json::Array(out)
            },
            Json::Object(entries) => {
                let out = copy_entries(entries);
                proof {
                    lemma_object_view(out);
                    lemma_object_view(*entries);
                }
                Json::Object(out)
            },
        }
    }
}

/// A copy of a sequence of values.
pub fn copy_items(items: &Vec<Json>) -> (r: Vec<Json>)
    ensures
        items_model(r@) == items_model(items@),
    decreases items,
{
    let mut out: Vec<Json> = Vec::new();
    let mut i: usize = 0;
    while i < items.len()
        invariant
            i <= items.len(),
            out@.len() == i,
            forall|j: int| 0 <= j < i ==> (#[trigger] out@[j])@ == items@[j]@,
        decreases items.len() - i,
    {
        proof {
            vstd::std_specs::vec::axiom_vec_index_decreases(*items, i as int);
        }
        let c = items[i].deep_copy();
        out.push(c);
        i += 1;
    }
    assert(items_model(out@) =~= items_model(items@));
    out
}

/// A copy of a sequence of entries.
pub fn copy_entries(entries: &Vec<(String, Json)>) -> (r: Vec<(String, Json)>)
    ensures
        entries_model(r@) == entries_model(entries@),
    decreases entries,
{
    let mut out: Vec<(String, Json)> = Vec::new();
    let mut i: usize = 0;
    while i < entries.len()
        invariant
            i <= entries.len(),
            out@.len() == i,
            forall|j: int|
                0 <= j < i ==> (#[trigger] out@[j]).0@ == entries@[j].0@ && out@[j].1@
                    == entries@[j].1@,
        decreases entries.len() - i,
    {
        proof {
            vstd::std_specs::vec::axiom_vec_index_decreases(*entries, i as int);
        }
        let c = entries[i].1.deep_copy();
        out.push((entries[i].0.clone(), c));
        i += 1;
    }
    assert(entries_model(out@) =~= entries_model(entries@));
    out
}

/// The value of the first entry whose key is `key`.
pub fn get_entry<'a>(entries: &'a Vec<(String, Json)>, key: &str) -> (r: Option<&'a Json>)
    ensures
        opt_model(r) == obj_get(entries_model(entries@), key@),
{
    let mut i: usize = 0;
    assert(entries_model(entries@).subrange(0, entries.len() as int) =~= entries_model(entries@));
    while i < entries.len()
        invariant
            i <= entries.len(),
            obj_get(entries_model(entries@), key@) == obj_get(
                entries_model(entries@).subrange(i as int, entries.len() as int),
                key@,
            ),
        decreases entries.len() - i,
    {
        let ghost m = entries_model(entries@);
        assert(m.subrange(i as int, m.len() as int).drop_first() =~= m.subrange(i + 1, m.len() as int));
        if same_text(entries[i].0.as_str(), key) {
            return Some(&entries[i].1);
        }
        i += 1;
    }
    None
}

/// Sets the value under `key`: in place where the key is present, appended
/// where it is not.
pub fn set_entry(entries: &mut Vec<(String, Json)>, key: &str, value: Json)
    ensures
        entries_model(final(entries)@) == obj_set(entries_model(old(entries)@), key@, value@),
{
    let ghost m0 = entries_model(entries@);
    let mut i: usize = 0;
    while i < entries.len()
        invariant
            i <= entries.len(),
            entries@ == old(entries)@,
            m0 == entries_model(entries@),
            forall|j: int| 0 <= j < i ==> #[trigger] m0[j].0 != key@,
        decreases entries.len() - i,
    {
        if same_text(entries[i].0.as_str(), key) {
            let ghost vi = value@;
            entries.remove(i);
            entries.insert(i, (key.to_owned(), value));
            proof {
                lemma_set_at(m0, key@, vi, i as int);
                assert(entries_model(entries@) =~= m0.update(i as int, (key@, vi)));
            }
            return;
        }
        i += 1;
    }
    let ghost vv = value@;
    entries.push((key.to_owned(), value));
    proof {
        lemma_set_absent(m0, key@, vv);
        assert(entries_model(entries@) =~= m0.push((key@, vv)));
    }
}

proof fn lemma_set_at(m: Seq<(Seq<char>, JsonModel)>, k: Seq<char>, v: JsonModel, i: int)
    requires
        0 <= i < m.len(),
        m[i].0 == k,
        forall|j: int| 0 <= j < i ==> #[trigger] m[j].0 != k,
    ensures
        obj_set(m, k, v) == m.update(i, (k, v)),
    decreases i,
{
    if i > 0 {
        let t = m.drop_first();
        assert forall|j: int| 0 <= j < i - 1 implies #[trigger] t[j].0 != k by {
            assert(t[j] == m[j + 1]);
        }
        lemma_set_at(t, k, v, i - 1);
        assert(m[0].0 != k);
        assert(seq![m[0]] + t.update(i - 1, (k, v)) =~= m.update(i, (k, v)));
    }
}

proof fn lemma_set_absent(m: Seq<(Seq<char>, JsonModel)>, k: Seq<char>, v: JsonModel)
    requires
        forall|j: int| 0 <= j < m.len() ==> #[trigger] m[j].0 != k,
    ensures
        obj_set(m, k, v) == m.push((k, v)),
    decreases m.len(),
{
    if m.len() > 0 {
        let t = m.drop_first();
        assert forall|j: int| 0 <= j < t.len() implies #[trigger] t[j].0 != k by {
            assert(t[j] == m[j + 1]);
        }
        lemma_set_absent(t, k, v);
        assert(m[0].0 != k);
        assert(seq![m[0]] + t.push((k, v)) =~= m.push((k, v)));
    }
}

} // verus!


verus! {

/// The name of a value's JSON type.
pub open spec fn kind_name(v: JsonModel) -> Seq<char> {
    match v {
        JsonModel::Null => "null"@,
        JsonModel::Bool(_) => "boolean"@,
        JsonModel::Number(_) => "number"@,
        JsonModel::String(_) => "string"@,
        JsonModel::Array(_) => "array"@,
        JsonModel::Object(_) => "object"@,
    }
}

/// The name of a value's JSON type.
pub fn json_type_name(v: &Json) -> (r: &'static str)
    ensures
        r@ == kind_name(v@),
{
    match v {
        Json::Null => "null",
        Json::Bool(_) => "boolean",
        Json::Number(_) => "number",
        Json::String(_) => "string",
        Json::Array(_) => "array",
        Json::Object(_) => "object",
    }
}

/// The text of a string value, and the empty text for anything else.
pub open spec fn text_or_empty(v: Option<JsonModel>) -> Seq<char> {
    match v {
        Some(JsonModel::String(s)) => s,
        _ => Seq::empty(),
    }
}

/// The model of an optional borrowed value.
pub open spec fn opt_model(v: Option<&Json>) -> Option<JsonModel> {
    match v {
        Some(j) => Some(j@),
        None => None,
    }
}

/// The text of a string value, and the empty text for anything else.
pub fn str_or_empty<'a>(v: Option<&'a Json>) -> (r: &'a str)
    ensures
        r@ == text_or_empty(opt_model(v)),
{
    proof {
        reveal_strlit("");
    }
    match v {
        Some(Json::String(s)) => s.as_str(),
        _ => "",
    }
}

} // verus!

verus! {

/// Appending an entry appends its model.
pub proof fn lemma_entries_push(v: Seq<(String, Json)>, x: (String, Json))
    ensures
        entries_model(v.push(x)) == entries_model(v).push((x.0@, x.1@)),
{
    assert(entries_model(v.push(x)) =~= entries_model(v).push((x.0@, x.1@)));
}

/// Appending an item appends its model.
pub proof fn lemma_items_push(v: Seq<Json>, x: Json)
    ensures
        items_model(v.push(x)) == items_model(v).push(x@),
{
    assert(items_model(v.push(x)) =~= items_model(v).push(x@));
}

/// The prefix of length `i + 1` ends with the `i`-th element and starts with
/// the prefix of length `i`.
pub proof fn lemma_prefix_step<A>(s: Seq<A>, i: int)
    requires
        0 <= i < s.len(),
    ensures
        s.subrange(0, i + 1).subrange(0, i) == s.subrange(0, i),
        s.subrange(0, i + 1)[i] == s[i],
        s.subrange(0, i + 1).len() == i + 1,
{
    assert(s.subrange(0, i + 1).subrange(0, i) =~= s.subrange(0, i));
}

} // verus!

verus! {

/// The suffix from `i` starts with the `i`-th element, and without it is the
/// suffix from `i + 1`.
pub proof fn lemma_suffix_step<A>(s: Seq<A>, i: int)
    requires
        0 <= i < s.len(),
    ensures
        s.subrange(i, s.len() as int)[0] == s[i],
        s.subrange(i, s.len() as int).drop_first() == s.subrange(i + 1, s.len() as int),
        s.subrange(i, s.len() as int).len() > 0,
{
    assert(s.subrange(i, s.len() as int).drop_first() =~= s.subrange(i + 1, s.len() as int));
}

/// The suffix from 0 is the whole sequence, and the suffix from its length is empty.
pub proof fn lemma_suffix_ends<A>(s: Seq<A>)
    ensures
        s.subrange(0, s.len() as int) == s,
        s.subrange(s.len() as int, s.len() as int).len() == 0,
{
    assert(s.subrange(0, s.len() as int) =~= s);
}

} // verus!
