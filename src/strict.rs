//! Closing resolved object schemas to unknown properties.
use vstd::prelude::*;

use crate::json::{
    entries_model, get_entry, has_key, items_model, lemma_array_view, lemma_entries_push,
    lemma_items_push, lemma_object_view, obj_get, obj_set, same_text, set_entry, Json, JsonModel,
};

verus! {

/// Whether an object schema uses `allOf`, `anyOf` or `oneOf`.
pub open spec fn has_composition(m: Seq<(Seq<char>, JsonModel)>) -> bool {
    has_key(m, "allOf"@) || has_key(m, "anyOf"@) || has_key(m, "oneOf"@)
}

/// Whether a schema describes objects: its `type` is `"object"`, or it has `properties`.
pub open spec fn is_object_schema(m: Seq<(Seq<char>, JsonModel)>) -> bool {
    obj_get(m, "type"@) == Some(JsonModel::String("object"@)) || has_key(m, "properties"@)
}

/// Whether a schema gets closed: it describes objects or composes, and it is
/// not a direct branch of a composition.
pub open spec fn closes(m: Seq<(Seq<char>, JsonModel)>, in_branch: bool) -> bool {
    !in_branch && (is_object_schema(m) || has_composition(m))
}

/// The keyword that closes a schema: `unevaluatedProperties` where it
/// composes, `additionalProperties` where it does not.
pub open spec fn closing_key(m: Seq<(Seq<char>, JsonModel)>) -> Seq<char> {
    if has_composition(m) {
        "unevaluatedProperties"@
    } else {
        "additionalProperties"@
    }
}

/// Whether the closing keyword may be set to `false`: it is absent or `true`.
pub open spec fn may_close(v: Option<JsonModel>) -> bool {
    v is None || v == Some(JsonModel::Bool(true))
}

/// A value with every object schema below it closed; `in_branch` tells that
/// the value is a direct branch of `allOf`, `anyOf` or `oneOf`.
pub open spec fn close_spec(v: JsonModel, in_branch: bool) -> JsonModel
    decreases v, 1nat,
{
    match v {
        JsonModel::Object(m) => JsonModel::Object(close_object_spec(m, in_branch)),
        _ => v,
    }
}

/// An object schema with its members closed, and its closing keyword set to
/// `false` where it closes and the keyword is absent or `true`.
pub open spec fn close_object_spec(m: Seq<(Seq<char>, JsonModel)>, in_branch: bool) -> Seq<
    (Seq<char>, JsonModel),
>
    decreases m, m.len() + 1,
{
    let c = close_entries_spec(m, 0, Seq::empty());
    if closes(m, in_branch) && may_close(obj_get(m, closing_key(m))) {
        obj_set(c, closing_key(m), JsonModel::Bool(false))
    } else {
        c
    }
}

/// The members of `m` from index `i` on, each closed by its own rule.
pub open spec fn close_entries_spec(
    m: Seq<(Seq<char>, JsonModel)>,
    i: nat,
    acc: Seq<(Seq<char>, JsonModel)>,
) -> Seq<(Seq<char>, JsonModel)>
    decreases m, m.len() - i,
{
    if i >= m.len() {
        acc
    } else {
        close_entries_spec(m, i + 1, acc.push((m[i as int].0, close_member_spec(m[i as int].0, m[i as int].1))))
    }
}

/// A member: the values of `properties`, `$defs` and `definitions`, the schemas
/// under `items`, `additionalProperties` and `unevaluatedProperties`, and the
/// branches of `allOf`, `anyOf` and `oneOf` (as branches) are closed; anything
/// else is kept.
pub open spec fn close_member_spec(k: Seq<char>, x: JsonModel) -> JsonModel
    decreases x, 2nat,
{
    if k == "properties"@ || k == "$defs"@ || k == "definitions"@ {
        match x {
            JsonModel::Object(p) => JsonModel::Object(close_values_spec(p, 0, Seq::empty())),
            _ => x,
        }
    } else if k == "items"@ || k == "additionalProperties"@ || k == "unevaluatedProperties"@ {
        close_spec(x, false)
    } else if k == "allOf"@ || k == "anyOf"@ || k == "oneOf"@ {
        match x {
            JsonModel::Array(a) => JsonModel::Array(close_branches_spec(a, 0, Seq::empty())),
            _ => x,
        }
    } else {
        x
    }
}

/// The values of `p` from index `i` on, each closed.
pub open spec fn close_values_spec(
    p: Seq<(Seq<char>, JsonModel)>,
    i: nat,
    acc: Seq<(Seq<char>, JsonModel)>,
) -> Seq<(Seq<char>, JsonModel)>
    decreases p, p.len() - i,
{
    if i >= p.len() {
        acc
    } else {
        close_values_spec(p, i + 1, acc.push((p[i as int].0, close_spec(p[i as int].1, false))))
    }
}

/// The branches of `a` from index `i` on, each closed as a branch.
pub open spec fn close_branches_spec(a: Seq<JsonModel>, i: nat, acc: Seq<JsonModel>) -> Seq<JsonModel>
    decreases a, a.len() - i,
{
    if i >= a.len() {
        acc
    } else {
        close_branches_spec(a, i + 1, acc.push(close_spec(a[i as int], true)))
    }
}

/// Closes every object schema in `value` to unknown properties.
pub fn close_additional_properties(value: &Json) -> (r: Json)
    ensures
        r@ == close_spec(value@, false),
{
    close_additional_properties_inner(value, false)
}

fn close_additional_properties_inner(value: &Json, in_composition_branch: bool) -> (r: Json)
    ensures
        r@ == close_spec(value@, in_composition_branch),
    decreases value, 1nat,
{
    match value {
        Json::Object(map) => {
            proof {
                lemma_object_view(*map);
            }
            let out = close_object(map, in_composition_branch);
            proof {
                lemma_object_view(out);
            }
            Json::Object(out)
        },
        other => other.deep_copy(),
    }
}

fn closing_key_of(map: &Vec<(String, Json)>) -> (r: (bool, &'static str))
    ensures
        r.0 == closes(entries_model(map@), false),
        r.1@ == closing_key(entries_model(map@)),
{
    let has_composition = get_entry(map, "allOf").is_some() || get_entry(map, "anyOf").is_some()
        || get_entry(map, "oneOf").is_some();
    let is_object_schema = match get_entry(map, "type") {
        Some(Json::String(t)) => same_text(t.as_str(), "object"),
        _ => false,
    } || get_entry(map, "properties").is_some();
    proof {
        reveal_strlit("object");
    }
    if has_composition {
        (true, "unevaluatedProperties")
    } else {
        (is_object_schema, "additionalProperties")
    }
}

fn close_object(map: &Vec<(String, Json)>, in_composition_branch: bool) -> (r: Vec<(String, Json)>)
    ensures
        entries_model(r@) == close_object_spec(entries_model(map@), in_composition_branch),
    decreases map, map.len() + 1,
{
    let ghost m = entries_model(map@);
    let mut out: Vec<(String, Json)> = Vec::new();
    assert(entries_model(out@) =~= Seq::empty());
    let ghost goal = close_entries_spec(m, 0, Seq::empty());
    let mut i: usize = 0;
    while i < map.len()
        invariant
            i <= map.len(),
            m == entries_model(map@),
            goal == close_entries_spec(m, 0, Seq::empty()),
            goal == close_entries_spec(m, i as nat, entries_model(out@)),
        decreases map.len() - i,
    {
        proof {
            vstd::std_specs::vec::axiom_vec_index_decreases(*map, i as int);
        }
        let v = close_member(map[i].0.as_str(), &map[i].1);
        let x = (map[i].0.clone(), v);
        proof {
            lemma_entries_push(out@, x);
        }
        out.push(x);
        i += 1;
    }
    let (composes_or_object, key) = closing_key_of(map);
    if !in_composition_branch && composes_or_object {
        let open_now = match get_entry(map, key) {
            None => true,
            Some(Json::Bool(b)) => *b,
            Some(_) => false,
        };
        if open_now {
            set_entry(&mut out, key, Json::Bool(false));
        }
    }
    out
}

fn close_member(key: &str, child: &Json) -> (r: Json)
    ensures
        r@ == close_member_spec(key@, child@),
    decreases child, 2nat,
{
    if same_text(key, "properties") || same_text(key, "$defs") || same_text(key, "definitions") {
        match child {
            Json::Object(p) => {
                proof {
                    lemma_object_view(*p);
                }
                let out = close_values(p);
                proof {
                    lemma_object_view(out);
                }
                Json::Object(out)
            },
            other => other.deep_copy(),
        }
    } else if same_text(key, "items") || same_text(key, "additionalProperties") || same_text(
        key,
        "unevaluatedProperties",
    ) {
        close_additional_properties_inner(child, false)
    } else if same_text(key, "allOf") || same_text(key, "anyOf") || same_text(key, "oneOf") {
        match child {
            Json::Array(a) => {
                proof {
                    lemma_array_view(*a);
                }
                let out = close_branches(a);
                proof {
                    lemma_array_view(out);
                }
                Json::Array(out)
            },
            other => other.deep_copy(),
        }
    } else {
        child.deep_copy()
    }
}

fn close_values(p: &Vec<(String, Json)>) -> (r: Vec<(String, Json)>)
    ensures
        entries_model(r@) == close_values_spec(entries_model(p@), 0, Seq::empty()),
    decreases p, 0nat,
{
    let ghost m = entries_model(p@);
    let mut out: Vec<(String, Json)> = Vec::new();
    assert(entries_model(out@) =~= Seq::empty());
    let ghost goal = close_values_spec(m, 0, Seq::empty());
    let mut i: usize = 0;
    while i < p.len()
        invariant
            i <= p.len(),
            m == entries_model(p@),
            goal == close_values_spec(m, 0, Seq::empty()),
            goal == close_values_spec(m, i as nat, entries_model(out@)),
        decreases p.len() - i,
    {
        proof {
            vstd::std_specs::vec::axiom_vec_index_decreases(*p, i as int);
        }
        let v = close_additional_properties_inner(&p[i].1, false);
        let x = (p[i].0.clone(), v);
        proof {
            lemma_entries_push(out@, x);
        }
        out.push(x);
        i += 1;
    }
    out
}

fn close_branches(a: &Vec<Json>) -> (r: Vec<Json>)
    ensures
        items_model(r@) == close_branches_spec(items_model(a@), 0, Seq::empty()),
    decreases a, 0nat,
{
    let ghost m = items_model(a@);
    let mut out: Vec<Json> = Vec::new();
    assert(items_model(out@) =~= Seq::empty());
    let ghost goal = close_branches_spec(m, 0, Seq::empty());
    let mut i: usize = 0;
    while i < a.len()
        invariant
            i <= a.len(),
            m == items_model(a@),
            goal == close_branches_spec(m, 0, Seq::empty()),
            goal == close_branches_spec(m, i as nat, items_model(out@)),
        decreases a.len() - i,
    {
        proof {
            vstd::std_specs::vec::axiom_vec_index_decreases(*a, i as int);
        }
        let v = close_additional_properties_inner(&a[i], true);
        proof {
            lemma_items_push(out@, v);
        }
        out.push(v);
        i += 1;
    }
    out
}

} // verus!

verus! {

/// Whether a closable node holds its closing keyword as `false`, or as a
/// schema that was there before closing.
pub open spec fn node_closed(m: Seq<(Seq<char>, JsonModel)>, in_branch: bool) -> bool {
    closes(m, in_branch) ==> (obj_get(m, closing_key(m)) matches Some(c) && (c is Bool ==> c
        == JsonModel::Bool(false)))
}

/// Every node that closing visits below and at `v` is closed.
pub open spec fn closed_tree(v: JsonModel, in_branch: bool) -> bool
    decreases v, 1nat,
{
    match v {
        JsonModel::Object(m) => node_closed(m, in_branch) && closed_members(m),
        _ => true,
    }
}

/// Every member that closing visits is closed.
pub open spec fn closed_members(m: Seq<(Seq<char>, JsonModel)>) -> bool
    decreases m, 0nat,
{
    forall|i: int| 0 <= i < m.len() ==> member_closed(#[trigger] m[i].0, m[i].1)
}

/// A member's visited schemas are closed.
pub open spec fn member_closed(k: Seq<char>, x: JsonModel) -> bool
    decreases x, 2nat,
{
    if k == "properties"@ || k == "$defs"@ || k == "definitions"@ {
        x is Object ==> forall|i: int|
            0 <= i < x->Object_0.len() ==> closed_tree(#[trigger] x->Object_0[i].1, false)
    } else if k == "items"@ || k == "additionalProperties"@ || k == "unevaluatedProperties"@ {
        closed_tree(x, false)
    } else if k == "allOf"@ || k == "anyOf"@ || k == "oneOf"@ {
        x is Array ==> forall|i: int| 0 <= i < x->Array_0.len() ==> closed_tree(#[trigger] x->Array_0[i], true)
    } else {
        true
    }
}

/// The entries with each value closed by its member rule.
pub open spec fn closed_map(m: Seq<(Seq<char>, JsonModel)>) -> Seq<(Seq<char>, JsonModel)> {
    Seq::new(m.len(), |i: int| (m[i].0, close_member_spec(m[i].0, m[i].1)))
}

proof fn lemma_close_entries_map(m: Seq<(Seq<char>, JsonModel)>, i: nat, acc: Seq<(Seq<char>, JsonModel)>)
    requires
        i <= m.len(),
        acc == closed_map(m).subrange(0, i as int),
    ensures
        close_entries_spec(m, i, acc) == closed_map(m),
    decreases m.len() - i,
{
    if i < m.len() {
        let n = acc.push((m[i as int].0, close_member_spec(m[i as int].0, m[i as int].1)));
        assert(n =~= closed_map(m).subrange(0, i as int + 1));
        lemma_close_entries_map(m, i + 1, n);
    } else {
        assert(acc =~= closed_map(m));
    }
}

proof fn lemma_closed_map_get(m: Seq<(Seq<char>, JsonModel)>, q: Seq<char>)
    ensures
        obj_get(closed_map(m), q) == (match obj_get(m, q) {
            Some(x) => Some(close_member_spec(q, x)),
            None => None,
        }),
    decreases m.len(),
{
    let c = closed_map(m);
    if m.len() > 0 {
        let t = m.drop_first();
        assert(c.drop_first() =~= closed_map(t));
        lemma_closed_map_get(t, q);
    }
}

/// The value under a key after `obj_set`: the set value under the set key,
/// the earlier value under any other.
pub proof fn lemma_set_get(m: Seq<(Seq<char>, JsonModel)>, k: Seq<char>, v: JsonModel, q: Seq<char>)
    ensures
        obj_get(obj_set(m, k, v), q) == (if q == k {
            Some(v)
        } else {
            obj_get(m, q)
        }),
    decreases m.len(),
{
    let s = obj_set(m, k, v);
    if m.len() == 0 {
        assert(s.drop_first() =~= Seq::<(Seq<char>, JsonModel)>::empty());
    } else if m[0].0 == k {
        assert(s.drop_first() =~= m.drop_first());
    } else {
        let t = m.drop_first();
        assert(s.drop_first() =~= obj_set(t, k, v));
        lemma_set_get(t, k, v, q);
    }
}

proof fn lemma_set_members(m: Seq<(Seq<char>, JsonModel)>, k: Seq<char>, v: JsonModel)
    requires
        closed_members(m),
        member_closed(k, v),
    ensures
        closed_members(obj_set(m, k, v)),
    decreases m.len(),
{
    let s = obj_set(m, k, v);
    if m.len() == 0 {
    } else if m[0].0 == k {
        assert forall|i: int| 0 <= i < s.len() implies member_closed(#[trigger] s[i].0, s[i].1) by {
            if i > 0 {
                assert(s[i] == m[i]);
            }
        }
    } else {
        let t = m.drop_first();
        assert forall|i: int| 0 <= i < t.len() implies member_closed(#[trigger] t[i].0, t[i].1) by {
            assert(t[i] == m[i + 1]);
        }
        lemma_set_members(t, k, v);
        let r = obj_set(t, k, v);
        assert forall|i: int| 0 <= i < s.len() implies member_closed(#[trigger] s[i].0, s[i].1) by {
            if i > 0 {
                assert(s[i] == r[i - 1]);
            }
        }
    }
}

/// Closing leaves every visited node closed: each node that describes objects
/// or composes, and is not a direct branch of `allOf`, `anyOf` or `oneOf`,
/// holds its closing keyword (`unevaluatedProperties` where it composes,
/// `additionalProperties` where it does not) as `false`, or as the schema it
/// held before.
pub proof fn lemma_close_closes(v: JsonModel, in_branch: bool)
    ensures
        closed_tree(close_spec(v, in_branch), in_branch),
    decreases v, 1nat,
{
    match v {
        JsonModel::Object(m) => {
            reveal_strlit("unevaluatedProperties");
            reveal_strlit("additionalProperties");
            reveal_strlit("allOf");
            reveal_strlit("anyOf");
            reveal_strlit("oneOf");
            reveal_strlit("type");
            reveal_strlit("properties");
            let key = closing_key(m);
            assert(key[0] != "allOf"@[0] || key[1] != "allOf"@[1]);
            assert(key[0] != "anyOf"@[0] || key[1] != "anyOf"@[1]);
            assert(key[0] != "oneOf"@[0]);
            assert(key[0] != "type"@[0]);
            assert(key[0] != "properties"@[0]);
            assert(Seq::<(Seq<char>, JsonModel)>::empty() =~= closed_map(m).subrange(0, 0));
            lemma_close_entries_map(m, 0, Seq::empty());
            let c = closed_map(m);
            assert(closed_members(c)) by {
                assert forall|i: int| 0 <= i < c.len() implies member_closed(#[trigger] c[i].0, c[i].1) by {
                    lemma_member_closes(m[i].0, m[i].1);
                }
            }
            lemma_closed_map_get(m, "allOf"@);
            lemma_closed_map_get(m, "anyOf"@);
            lemma_closed_map_get(m, "oneOf"@);
            lemma_closed_map_get(m, "type"@);
            lemma_closed_map_get(m, "properties"@);
            lemma_closed_map_get(m, key);
            reveal_strlit("object");
            if closes(m, in_branch) && may_close(obj_get(m, key)) {
                let s = obj_set(c, key, JsonModel::Bool(false));
                lemma_set_get(c, key, JsonModel::Bool(false), "allOf"@);
                lemma_set_get(c, key, JsonModel::Bool(false), "anyOf"@);
                lemma_set_get(c, key, JsonModel::Bool(false), "oneOf"@);
                lemma_set_get(c, key, JsonModel::Bool(false), "type"@);
                lemma_set_get(c, key, JsonModel::Bool(false), "properties"@);
                lemma_set_get(c, key, JsonModel::Bool(false), key);
                lemma_set_members(c, key, JsonModel::Bool(false));
                assert(closing_key(s) == key);
                assert(node_closed(s, in_branch));
            } else if closes(m, in_branch) {
                let x = obj_get(m, key)->Some_0;
                if has_composition(m) {
                    assert(key == "unevaluatedProperties"@);
                } else {
                    assert(key == "additionalProperties"@);
                }
                reveal_strlit("$defs");
                reveal_strlit("definitions");
                assert(key[0] != "$defs"@[0]);
                assert(key[0] != "definitions"@[0]);
                assert(close_member_spec(key, x) == close_spec(x, false));
                assert(closing_key(c) == key);
            }
        },
        _ => {},
    }
}

proof fn lemma_member_closes(k: Seq<char>, x: JsonModel)
    ensures
        member_closed(k, close_member_spec(k, x)),
    decreases x, 2nat,
{
    if k == "properties"@ || k == "$defs"@ || k == "definitions"@ {
        match x {
            JsonModel::Object(p) => {
                lemma_close_values_map(p, 0, Seq::empty());
                let r = close_values_spec(p, 0, Seq::empty());
                assert forall|i: int| 0 <= i < r.len() implies closed_tree(#[trigger] r[i].1, false) by {
                    lemma_close_closes(p[i].1, false);
                }
            },
            _ => {},
        }
    } else if k == "items"@ || k == "additionalProperties"@ || k == "unevaluatedProperties"@ {
        lemma_close_closes(x, false);
    } else if k == "allOf"@ || k == "anyOf"@ || k == "oneOf"@ {
        match x {
            JsonModel::Array(a) => {
                lemma_close_branches_map(a, 0, Seq::empty());
                let r = close_branches_spec(a, 0, Seq::empty());
                assert forall|i: int| 0 <= i < r.len() implies closed_tree(#[trigger] r[i], true) by {
                    lemma_close_closes(a[i], true);
                }
            },
            _ => {},
        }
    }
}

proof fn lemma_close_values_map(p: Seq<(Seq<char>, JsonModel)>, i: nat, acc: Seq<(Seq<char>, JsonModel)>)
    requires
        i <= p.len(),
        acc.len() == i,
        forall|j: int| 0 <= j < i ==> #[trigger] acc[j] == (p[j].0, close_spec(p[j].1, false)),
    ensures
        close_values_spec(p, i, acc).len() == p.len(),
        forall|j: int|
            0 <= j < p.len() ==> #[trigger] close_values_spec(p, i, acc)[j] == (p[j].0, close_spec(p[j].1, false)),
    decreases p.len() - i,
{
    if i < p.len() {
        let n = acc.push((p[i as int].0, close_spec(p[i as int].1, false)));
        assert forall|j: int| 0 <= j < i + 1 implies #[trigger] n[j] == (p[j].0, close_spec(p[j].1, false)) by {
            if j < i {
                assert(n[j] == acc[j]);
            }
        }
        lemma_close_values_map(p, i + 1, n);
    }
}

proof fn lemma_close_branches_map(a: Seq<JsonModel>, i: nat, acc: Seq<JsonModel>)
    requires
        i <= a.len(),
        acc.len() == i,
        forall|j: int| 0 <= j < i ==> #[trigger] acc[j] == close_spec(a[j], true),
    ensures
        close_branches_spec(a, i, acc).len() == a.len(),
        forall|j: int| 0 <= j < a.len() ==> #[trigger] close_branches_spec(a, i, acc)[j] == close_spec(a[j], true),
    decreases a.len() - i,
{
    if i < a.len() {
        let n = acc.push(close_spec(a[i as int], true));
        assert forall|j: int| 0 <= j < i + 1 implies #[trigger] n[j] == close_spec(a[j], true) by {
            if j < i {
                assert(n[j] == acc[j]);
            }
        }
        lemma_close_branches_map(a, i + 1, n);
    }
}

} // verus!
