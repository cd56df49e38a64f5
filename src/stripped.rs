//! The law that resolved schemas carry no annotations.
use vstd::prelude::*;

use crate::json::{obj_get, obj_set, JsonModel};
use crate::names::names_json;
use crate::resolver::{
    resolve_allof_spec, resolve_branch_spec, resolve_branches_spec, resolve_def_entries_spec,
    resolve_defs_spec, resolve_entries_spec, resolve_entry_spec, resolve_items_spec,
    resolve_member_spec, resolve_object_spec, resolve_prop_entries_spec, resolve_prop_spec,
    resolve_properties_spec, resolve_spec, resolve_value_spec, strip_entries_spec,
    strip_items_spec, strip_spec, transition_record, with_transition_spec,
};
use crate::strict::{
    close_branches_spec, close_entries_spec, close_member_spec, close_object_spec, close_spec,
    close_values_spec, closing_key,
};
use crate::types::{is_annotation_key, Direction};

verus! {

/// A value with no `ucp_request` or `ucp_response` key at any depth.
pub open spec fn annotation_free(v: JsonModel) -> bool
    decreases v, 1nat,
{
    match v {
        JsonModel::Object(m) => entries_free(m),
        JsonModel::Array(a) => items_free(a),
        _ => true,
    }
}

/// Entries with no annotation key, at their level or below.
pub open spec fn entries_free(m: Seq<(Seq<char>, JsonModel)>) -> bool
    decreases m, 0nat,
{
    forall|i: int|
        0 <= i < m.len() ==> !is_annotation_key(#[trigger] m[i].0) && annotation_free(m[i].1)
}

/// Items with no annotation key at any depth.
pub open spec fn items_free(a: Seq<JsonModel>) -> bool
    decreases a, 0nat,
{
    forall|i: int| 0 <= i < a.len() ==> annotation_free(#[trigger] a[i])
}

/// The keys that resolution and closing add are not annotation keys.
pub proof fn lemma_added_keys_plain()
    ensures
        !is_annotation_key("x-ucp-schema-transition"@),
        !is_annotation_key("deprecated"@),
        !is_annotation_key("required"@),
        !is_annotation_key("additionalProperties"@),
        !is_annotation_key("unevaluatedProperties"@),
        !is_annotation_key("from"@),
        !is_annotation_key("to"@),
        !is_annotation_key("description"@),
{
    reveal_strlit("ucp_request");
    reveal_strlit("ucp_response");
    reveal_strlit("x-ucp-schema-transition");
    reveal_strlit("deprecated");
    reveal_strlit("required");
    reveal_strlit("additionalProperties");
    reveal_strlit("unevaluatedProperties");
    reveal_strlit("from");
    reveal_strlit("to");
    reveal_strlit("description");
    assert("x-ucp-schema-transition"@[0] != "ucp_request"@[0]);
    assert("x-ucp-schema-transition"@[0] != "ucp_response"@[0]);
    assert("deprecated"@[0] != "ucp_request"@[0]);
    assert("unevaluatedProperties"@[1] != "ucp_request"@[1]);
    assert("unevaluatedProperties"@[1] != "ucp_response"@[1]);
    assert("additionalProperties"@[0] != "ucp_request"@[0]);
    assert("additionalProperties"@[0] != "ucp_response"@[0]);
    assert("required"@[0] != "ucp_request"@[0]);
    assert("required"@[0] != "ucp_response"@[0]);
    assert("deprecated"@[0] != "ucp_response"@[0]);
}

proof fn lemma_push_free(m: Seq<(Seq<char>, JsonModel)>, k: Seq<char>, x: JsonModel)
    requires
        entries_free(m),
        !is_annotation_key(k),
        annotation_free(x),
    ensures
        entries_free(m.push((k, x))),
{
    let n = m.push((k, x));
    assert forall|i: int| 0 <= i < n.len() implies !is_annotation_key(#[trigger] n[i].0)
        && annotation_free(n[i].1) by {
        if i < m.len() {
            assert(n[i] == m[i]);
        }
    }
}

proof fn lemma_set_free(m: Seq<(Seq<char>, JsonModel)>, k: Seq<char>, x: JsonModel)
    requires
        entries_free(m),
        !is_annotation_key(k),
        annotation_free(x),
    ensures
        entries_free(obj_set(m, k, x)),
    decreases m.len(),
{
    if m.len() == 0 {
        lemma_push_free(m, k, x);
        assert(seq![(k, x)] =~= m.push((k, x)));
    } else if m[0].0 == k {
        let n = m.update(0, (k, x));
        assert forall|i: int| 0 <= i < n.len() implies !is_annotation_key(#[trigger] n[i].0)
            && annotation_free(n[i].1) by {
            if i > 0 {
                assert(n[i] == m[i]);
            }
        }
    } else {
        let t = m.drop_first();
        assert forall|i: int| 0 <= i < t.len() implies !is_annotation_key(#[trigger] t[i].0)
            && annotation_free(t[i].1) by {
            assert(t[i] == m[i + 1]);
        }
        lemma_set_free(t, k, x);
        let r = obj_set(t, k, x);
        let n = seq![m[0]] + r;
        assert forall|i: int| 0 <= i < n.len() implies !is_annotation_key(#[trigger] n[i].0)
            && annotation_free(n[i].1) by {
            if i > 0 {
                assert(n[i] == r[i - 1]);
            }
        }
    }
}

/// Stripping leaves no annotation key at any depth.
pub proof fn lemma_strip_free(v: JsonModel)
    ensures
        annotation_free(strip_spec(v)),
    decreases v, 1nat,
{
    match v {
        JsonModel::Object(m) => lemma_strip_entries_free(m),
        JsonModel::Array(a) => lemma_strip_items_free(a),
        _ => {},
    }
}

proof fn lemma_strip_entries_free(m: Seq<(Seq<char>, JsonModel)>)
    ensures
        entries_free(strip_entries_spec(m)),
    decreases m, 0nat,
{
    if m.len() > 0 {
        let e = m[m.len() - 1];
        lemma_strip_entries_free(m.subrange(0, m.len() - 1));
        if !is_annotation_key(e.0) {
            lemma_strip_free(e.1);
            lemma_push_free(strip_entries_spec(m.subrange(0, m.len() - 1)), e.0, strip_spec(e.1));
        }
    }
}

proof fn lemma_strip_items_free(a: Seq<JsonModel>)
    ensures
        items_free(strip_items_spec(a)),
    decreases a, 0nat,
{
    if a.len() > 0 {
        let p = a.subrange(0, a.len() - 1);
        lemma_strip_items_free(p);
        lemma_strip_free(a[a.len() - 1]);
        let n = strip_items_spec(p).push(strip_spec(a[a.len() - 1]));
        assert forall|i: int| 0 <= i < n.len() implies annotation_free(#[trigger] n[i]) by {
            if i < n.len() - 1 {
                assert(n[i] == strip_items_spec(p)[i]);
            }
        }
    }
}

proof fn lemma_transition_free(v: JsonModel, t: Option<crate::types::TransitionModel>)
    requires
        annotation_free(v),
    ensures
        annotation_free(with_transition_spec(v, t)),
{
    lemma_added_keys_plain();
    match v {
        JsonModel::Object(m) => match t {
            Some(info) => {
                let rec = transition_record(info);
                let e = rec->Object_0;
                assert forall|i: int| 0 <= i < e.len() implies !is_annotation_key(#[trigger] e[i].0)
                    && annotation_free(e[i].1) by {
                    if i == 0 {
                        assert(e[0] == ("from"@, JsonModel::String(info.from)));
                    } else if i == 1 {
                        assert(e[1] == ("to"@, JsonModel::String(info.to)));
                    } else {
                        assert(e[2] == ("description"@, JsonModel::String(info.description)));
                    }
                }
                assert(annotation_free(rec));
                lemma_set_free(m, "x-ucp-schema-transition"@, rec);
                let m1 = obj_set(m, "x-ucp-schema-transition"@, rec);
                lemma_set_free(m1, "deprecated"@, JsonModel::Bool(true));
            },
            None => {},
        },
        _ => {},
    }
}

proof fn lemma_prop_entries_free(
    p: Seq<(Seq<char>, JsonModel)>,
    i: nat,
    d: Direction,
    op: Seq<char>,
    path: Seq<char>,
    inh: Seq<(Seq<char>, JsonModel)>,
    acc: Seq<(Seq<char>, JsonModel)>,
    req: Seq<Seq<char>>,
)
    requires
        entries_free(acc),
        resolve_prop_entries_spec(p, i, d, op, path, inh, acc, req) is Ok,
    ensures
        entries_free(resolve_prop_entries_spec(p, i, d, op, path, inh, acc, req)->Ok_0.0),
    decreases p.len() - i,
{
    if i < p.len() {
        let name = p[i as int].0;
        let pv = p[i as int].1;
        let step = resolve_prop_spec(name, pv, d, op, path, inh, acc, req);
        let acc2 = step->Ok_0.0;
        let pp = crate::text::child_path(path, name);
        let ev = crate::resolver::effective_visibility_spec(pv, d, op, pp, inh, name);
        if !is_annotation_key(name) && ev->Ok_0.0 != crate::types::Visibility::Omit {
            let r = resolve_value_spec(pv, d, op, pp)->Ok_0;
            lemma_strip_free(r);
            lemma_transition_free(strip_spec(r), ev->Ok_0.1);
            lemma_push_free(acc, name, with_transition_spec(strip_spec(r), ev->Ok_0.1));
        }
        lemma_prop_entries_free(p, i + 1, d, op, path, inh, acc2, step->Ok_0.1);
    }
}

/// Resolution of a value leaves no annotation key at any depth.
pub proof fn lemma_value_free(v: JsonModel, d: Direction, op: Seq<char>, path: Seq<char>)
    requires
        resolve_value_spec(v, d, op, path) is Ok,
    ensures
        annotation_free(resolve_value_spec(v, d, op, path)->Ok_0),
    decreases v, 2nat,
{
    match v {
        JsonModel::Object(m) => lemma_object_free(m, d, op, path, Seq::empty()),
        JsonModel::Array(a) => lemma_items_free(a, 0, d, op, path, Seq::empty()),
        _ => {},
    }
}

proof fn lemma_items_free(
    a: Seq<JsonModel>,
    i: nat,
    d: Direction,
    op: Seq<char>,
    path: Seq<char>,
    acc: Seq<JsonModel>,
)
    requires
        items_free(acc),
        resolve_items_spec(a, i, d, op, path, acc) is Ok,
    ensures
        items_free(resolve_items_spec(a, i, d, op, path, acc)->Ok_0),
    decreases a, a.len() - i,
{
    if i < a.len() {
        let p = crate::text::child_path(path, crate::text::decimal(i));
        lemma_value_free(a[i as int], d, op, p);
        let r = resolve_value_spec(a[i as int], d, op, p)->Ok_0;
        let n = acc.push(r);
        assert forall|j: int| 0 <= j < n.len() implies annotation_free(#[trigger] n[j]) by {
            if j < acc.len() {
                assert(n[j] == acc[j]);
            }
        }
        lemma_items_free(a, i + 1, d, op, path, n);
    }
}

proof fn lemma_object_free(
    m: Seq<(Seq<char>, JsonModel)>,
    d: Direction,
    op: Seq<char>,
    path: Seq<char>,
    inh: Seq<(Seq<char>, JsonModel)>,
)
    requires
        resolve_object_spec(m, d, op, path, inh) is Ok,
    ensures
        annotation_free(resolve_object_spec(m, d, op, path, inh)->Ok_0),
    decreases m, m.len() + 1,
{
    let req0 = crate::names::required_names(m);
    lemma_entries_free(m, 0, d, op, path, inh, Seq::empty(), req0);
    let (acc, req) = resolve_entries_spec(m, 0, d, op, path, inh, Seq::empty(), req0)->Ok_0;
    lemma_added_keys_plain();
    let na = names_json(req)->Array_0;
    assert forall|i: int| 0 <= i < na.len() implies annotation_free(#[trigger] na[i]) by {
        assert(na[i] == JsonModel::String(req[i]));
    }
    assert(annotation_free(names_json(req)));
    lemma_set_free(acc, "required"@, names_json(req));
}

proof fn lemma_entries_free(
    m: Seq<(Seq<char>, JsonModel)>,
    i: nat,
    d: Direction,
    op: Seq<char>,
    path: Seq<char>,
    inh: Seq<(Seq<char>, JsonModel)>,
    acc: Seq<(Seq<char>, JsonModel)>,
    req: Seq<Seq<char>>,
)
    requires
        entries_free(acc),
        resolve_entries_spec(m, i, d, op, path, inh, acc, req) is Ok,
    ensures
        entries_free(resolve_entries_spec(m, i, d, op, path, inh, acc, req)->Ok_0.0),
    decreases m, m.len() - i,
{
    if i < m.len() {
        let k = m[i as int].0;
        let x = m[i as int].1;
        lemma_entry_free(k, x, d, op, path, inh, acc, req);
        let step = resolve_entry_spec(k, x, d, op, path, inh, acc, req)->Ok_0;
        lemma_entries_free(m, i + 1, d, op, path, inh, step.0, step.1);
    }
}

proof fn lemma_entry_free(
    k: Seq<char>,
    x: JsonModel,
    d: Direction,
    op: Seq<char>,
    path: Seq<char>,
    inh: Seq<(Seq<char>, JsonModel)>,
    acc: Seq<(Seq<char>, JsonModel)>,
    req: Seq<Seq<char>>,
)
    requires
        entries_free(acc),
        resolve_entry_spec(k, x, d, op, path, inh, acc, req) is Ok,
    ensures
        entries_free(resolve_entry_spec(k, x, d, op, path, inh, acc, req)->Ok_0.0),
    decreases x, 4nat,
{
    let cp = crate::text::child_path(path, k);
    if is_annotation_key(k) {
    } else if k == "required"@ {
        lemma_push_free(acc, k, JsonModel::Null);
    } else if k == "properties"@ {
        match x {
            JsonModel::Object(p) => lemma_prop_entries_free(p, 0, d, op, cp, inh, Seq::empty(), req),
            _ => lemma_strip_free(x),
        }
        let pv = resolve_properties_spec(x, d, op, cp, inh, req)->Ok_0.0;
        lemma_push_free(acc, k, pv);
    } else {
        lemma_member_free(k, x, d, op, cp);
        lemma_push_free(acc, k, resolve_member_spec(k, x, d, op, cp)->Ok_0);
    }
}

proof fn lemma_member_free(k: Seq<char>, x: JsonModel, d: Direction, op: Seq<char>, path: Seq<char>)
    requires
        !is_annotation_key(k),
        k != "required"@,
        k != "properties"@,
        resolve_member_spec(k, x, d, op, path) is Ok,
    ensures
        annotation_free(resolve_member_spec(k, x, d, op, path)->Ok_0),
    decreases x, 3nat,
{
    let r = resolve_member_spec(k, x, d, op, path);
    if k == "$defs"@ || k == "definitions"@ {
        assert(r == resolve_defs_spec(x, d, op, path));
        match x {
            JsonModel::Object(p) => lemma_def_entries_free(p, 0, d, op, path, Seq::empty()),
            _ => lemma_strip_free(x),
        }
    } else if k == "allOf"@ {
        assert(r == resolve_allof_spec(x, d, op, path));
        match x {
            JsonModel::Array(a) => {
                let merged = crate::allof::collect_spec(a, crate::types::annotation_key_of(d));
                assert(crate::allof::type_check_spec(Seq::empty(), a, path) is Ok);
                lemma_branches_free(a, 0, d, op, path, merged, Seq::empty());
            },
            _ => lemma_strip_free(x),
        }
    } else if (k == "anyOf"@ || k == "oneOf"@) && !(x is Array) {
        lemma_strip_free(x);
    } else if k == "additionalProperties"@ && !(x is Object) {
        lemma_strip_free(x);
    } else {
        assert(r == resolve_value_spec(x, d, op, path));
        lemma_value_free(x, d, op, path);
    }
}

proof fn lemma_def_entries_free(
    p: Seq<(Seq<char>, JsonModel)>,
    i: nat,
    d: Direction,
    op: Seq<char>,
    path: Seq<char>,
    acc: Seq<(Seq<char>, JsonModel)>,
)
    requires
        entries_free(acc),
        resolve_def_entries_spec(p, i, d, op, path, acc) is Ok,
    ensures
        entries_free(resolve_def_entries_spec(p, i, d, op, path, acc)->Ok_0),
    decreases p, p.len() - i,
{
    if i < p.len() {
        if is_annotation_key(p[i as int].0) {
            lemma_def_entries_free(p, i + 1, d, op, path, acc);
        } else {
            let cp = crate::text::child_path(path, p[i as int].0);
            lemma_value_free(p[i as int].1, d, op, cp);
            let r = resolve_value_spec(p[i as int].1, d, op, cp)->Ok_0;
            lemma_push_free(acc, p[i as int].0, r);
            lemma_def_entries_free(p, i + 1, d, op, path, acc.push((p[i as int].0, r)));
        }
    }
}

proof fn lemma_branches_free(
    a: Seq<JsonModel>,
    i: nat,
    d: Direction,
    op: Seq<char>,
    path: Seq<char>,
    merged: Seq<(Seq<char>, JsonModel)>,
    acc: Seq<JsonModel>,
)
    requires
        items_free(acc),
        resolve_branches_spec(a, i, d, op, path, merged, acc) is Ok,
    ensures
        items_free(resolve_branches_spec(a, i, d, op, path, merged, acc)->Ok_0),
    decreases a, a.len() - i,
{
    if i < a.len() {
        let ip = crate::text::child_path(path, crate::text::decimal(i));
        let b = a[i as int];
        match b {
            JsonModel::Object(bm) => lemma_object_free(bm, d, op, ip, merged),
            _ => lemma_value_free(b, d, op, ip),
        }
        let r = resolve_branch_spec(b, d, op, ip, merged)->Ok_0;
        let n = acc.push(r);
        assert forall|j: int| 0 <= j < n.len() implies annotation_free(#[trigger] n[j]) by {
            if j < acc.len() {
                assert(n[j] == acc[j]);
            }
        }
        lemma_branches_free(a, i + 1, d, op, path, merged, n);
    }
}

/// Closing keeps a value free of annotation keys.
pub proof fn lemma_close_free(v: JsonModel, in_branch: bool)
    requires
        annotation_free(v),
    ensures
        annotation_free(close_spec(v, in_branch)),
    decreases v, 1nat,
{
    match v {
        JsonModel::Object(m) => lemma_close_object_free(m, in_branch),
        _ => {},
    }
}

proof fn lemma_close_object_free(m: Seq<(Seq<char>, JsonModel)>, in_branch: bool)
    requires
        entries_free(m),
    ensures
        entries_free(close_object_spec(m, in_branch)),
    decreases m, m.len() + 1,
{
    lemma_close_entries_free(m, 0, Seq::empty());
    lemma_added_keys_plain();
    let c = close_entries_spec(m, 0, Seq::empty());
    lemma_set_free(c, closing_key(m), JsonModel::Bool(false));
}

proof fn lemma_close_entries_free(
    m: Seq<(Seq<char>, JsonModel)>,
    i: nat,
    acc: Seq<(Seq<char>, JsonModel)>,
)
    requires
        entries_free(m),
        entries_free(acc),
    ensures
        entries_free(close_entries_spec(m, i, acc)),
    decreases m, m.len() - i,
{
    if i < m.len() {
        let k = m[i as int].0;
        let x = m[i as int].1;
        lemma_close_member_free(k, x);
        lemma_push_free(acc, k, close_member_spec(k, x));
        lemma_close_entries_free(m, i + 1, acc.push((k, close_member_spec(k, x))));
    }
}

proof fn lemma_close_member_free(k: Seq<char>, x: JsonModel)
    requires
        annotation_free(x),
    ensures
        annotation_free(close_member_spec(k, x)),
    decreases x, 2nat,
{
    if k == "properties"@ || k == "$defs"@ || k == "definitions"@ {
        match x {
            JsonModel::Object(p) => lemma_close_values_free(p, 0, Seq::empty()),
            _ => {},
        }
    } else if k == "items"@ || k == "additionalProperties"@ || k == "unevaluatedProperties"@ {
        lemma_close_free(x, false);
    } else if k == "allOf"@ || k == "anyOf"@ || k == "oneOf"@ {
        match x {
            JsonModel::Array(a) => lemma_close_branches_free(a, 0, Seq::empty()),
            _ => {},
        }
    }
}

proof fn lemma_close_values_free(
    p: Seq<(Seq<char>, JsonModel)>,
    i: nat,
    acc: Seq<(Seq<char>, JsonModel)>,
)
    requires
        entries_free(p),
        entries_free(acc),
    ensures
        entries_free(close_values_spec(p, i, acc)),
    decreases p, p.len() - i,
{
    if i < p.len() {
        lemma_close_free(p[i as int].1, false);
        lemma_push_free(acc, p[i as int].0, close_spec(p[i as int].1, false));
        lemma_close_values_free(p, i + 1, acc.push((p[i as int].0, close_spec(p[i as int].1, false))));
    }
}

proof fn lemma_close_branches_free(a: Seq<JsonModel>, i: nat, acc: Seq<JsonModel>)
    requires
        items_free(a),
        items_free(acc),
    ensures
        items_free(close_branches_spec(a, i, acc)),
    decreases a, a.len() - i,
{
    if i < a.len() {
        lemma_close_free(a[i as int], true);
        let n = acc.push(close_spec(a[i as int], true));
        assert forall|j: int| 0 <= j < n.len() implies annotation_free(#[trigger] n[j]) by {
            if j < acc.len() {
                assert(n[j] == acc[j]);
            }
        }
        lemma_close_branches_free(a, i + 1, n);
    }
}

/// Resolution removes annotations: the resolution of any schema holds no
/// `ucp_request` or `ucp_response` key at any depth, strict or not.
pub proof fn lemma_resolve_annotation_free(s: JsonModel, d: Direction, op: Seq<char>, strict: bool)
    requires
        resolve_spec(s, d, op, strict) is Ok,
    ensures
        annotation_free(resolve_spec(s, d, op, strict)->Ok_0),
{
    lemma_value_free(s, d, op, Seq::empty());
    if strict {
        lemma_close_free(resolve_value_spec(s, d, op, Seq::empty())->Ok_0, false);
    }
}

} // verus!

verus! {

proof fn lemma_free_no_key(m: Seq<(Seq<char>, JsonModel)>, key: Seq<char>)
    requires
        entries_free(m),
        is_annotation_key(key),
    ensures
        obj_get(m, key) is None,
{
    crate::laws::lemma_obj_get_absent(m, key);
}

proof fn lemma_collect_props_none(
    acc: Seq<(Seq<char>, JsonModel)>,
    props: Seq<(Seq<char>, JsonModel)>,
    key: Seq<char>,
)
    requires
        entries_free(props),
        is_annotation_key(key),
    ensures
        crate::allof::collect_props_spec(acc, props, key) == acc,
    decreases props.len(),
{
    if props.len() > 0 {
        let p = props.drop_last();
        assert(entries_free(p)) by {
            assert forall|i: int| 0 <= i < p.len() implies !is_annotation_key(#[trigger] p[i].0)
                && annotation_free(p[i].1) by {
                assert(p[i] == props[i]);
            }
        }
        lemma_collect_props_none(acc, p, key);
        let last = props.last();
        assert(!is_annotation_key(props[props.len() - 1].0));
        assert(annotation_free(props[props.len() - 1].1));
        match last.1 {
            JsonModel::Object(pm) => lemma_free_no_key(pm, key),
            _ => {},
        }
    }
}

/// Branches without annotations hand down no annotations.
pub proof fn lemma_collect_none(a: Seq<JsonModel>, key: Seq<char>)
    requires
        items_free(a),
        is_annotation_key(key),
    ensures
        crate::allof::collect_spec(a, key) == Seq::<(Seq<char>, JsonModel)>::empty(),
    decreases a.len(),
{
    if a.len() > 0 {
        let p = a.drop_last();
        assert(items_free(p)) by {
            assert forall|i: int| 0 <= i < p.len() implies annotation_free(#[trigger] p[i]) by {
                assert(p[i] == a[i]);
            }
        }
        lemma_collect_none(p, key);
        assert(annotation_free(a[a.len() - 1]));
        match a.last() {
            JsonModel::Object(bm) => {
                match obj_get(bm, "properties"@) {
                    Some(JsonModel::Object(props)) => {
                        crate::laws::lemma_obj_get_found(bm, "properties"@);
                        let j = choose|j: int|
                            0 <= j < bm.len() && #[trigger] bm[j] == (
                                "properties"@,
                                obj_get(bm, "properties"@).unwrap(),
                            ) && forall|i: int| 0 <= i < j ==> #[trigger] bm[i].0 != "properties"@;
                        assert(!is_annotation_key(bm[j].0));
                        assert(annotation_free(bm[j].1));
                        lemma_collect_props_none(Seq::empty(), props, key);
                    },
                    _ => {},
                }
            },
            _ => {},
        }
    }
}

proof fn lemma_key_is_annotation(d: Direction)
    ensures
        is_annotation_key(crate::types::annotation_key_of(d)),
{
}

/// Without annotations, resolution of a value does not depend on the
/// direction or the operation.
pub proof fn lemma_value_indep(
    v: JsonModel,
    d1: Direction,
    op1: Seq<char>,
    d2: Direction,
    op2: Seq<char>,
    path: Seq<char>,
)
    requires
        annotation_free(v),
    ensures
        resolve_value_spec(v, d1, op1, path) == resolve_value_spec(v, d2, op2, path),
    decreases v, 2nat,
{
    match v {
        JsonModel::Object(m) => lemma_object_indep(m, d1, op1, d2, op2, path),
        JsonModel::Array(a) => lemma_items_indep(a, 0, d1, op1, d2, op2, path, Seq::empty()),
        _ => {},
    }
}

proof fn lemma_items_indep(
    a: Seq<JsonModel>,
    i: nat,
    d1: Direction,
    op1: Seq<char>,
    d2: Direction,
    op2: Seq<char>,
    path: Seq<char>,
    acc: Seq<JsonModel>,
)
    requires
        items_free(a),
    ensures
        resolve_items_spec(a, i, d1, op1, path, acc) == resolve_items_spec(a, i, d2, op2, path, acc),
    decreases a, a.len() - i,
{
    if i < a.len() {
        let p = crate::text::child_path(path, crate::text::decimal(i));
        assert(annotation_free(a[i as int]));
        lemma_value_indep(a[i as int], d1, op1, d2, op2, p);
        let r = resolve_value_spec(a[i as int], d1, op1, p);
        if r is Ok {
            lemma_items_indep(a, i + 1, d1, op1, d2, op2, path, acc.push(r->Ok_0));
        }
    }
}

proof fn lemma_object_indep(
    m: Seq<(Seq<char>, JsonModel)>,
    d1: Direction,
    op1: Seq<char>,
    d2: Direction,
    op2: Seq<char>,
    path: Seq<char>,
)
    requires
        entries_free(m),
    ensures
        resolve_object_spec(m, d1, op1, path, Seq::empty()) == resolve_object_spec(
            m,
            d2,
            op2,
            path,
            Seq::empty(),
        ),
    decreases m, m.len() + 1,
{
    lemma_entries_indep(m, 0, d1, op1, d2, op2, path, Seq::empty(), crate::names::required_names(m));
}

proof fn lemma_entries_indep(
    m: Seq<(Seq<char>, JsonModel)>,
    i: nat,
    d1: Direction,
    op1: Seq<char>,
    d2: Direction,
    op2: Seq<char>,
    path: Seq<char>,
    acc: Seq<(Seq<char>, JsonModel)>,
    req: Seq<Seq<char>>,
)
    requires
        entries_free(m),
    ensures
        resolve_entries_spec(m, i, d1, op1, path, Seq::empty(), acc, req) == resolve_entries_spec(
            m,
            i,
            d2,
            op2,
            path,
            Seq::empty(),
            acc,
            req,
        ),
    decreases m, m.len() - i,
{
    if i < m.len() {
        let k = m[i as int].0;
        let x = m[i as int].1;
        assert(annotation_free(x));
        lemma_entry_indep(k, x, d1, op1, d2, op2, path, acc, req);
        let r = resolve_entry_spec(k, x, d1, op1, path, Seq::empty(), acc, req);
        if r is Ok {
            lemma_entries_indep(m, i + 1, d1, op1, d2, op2, path, r->Ok_0.0, r->Ok_0.1);
        }
    }
}

proof fn lemma_entry_indep(
    k: Seq<char>,
    x: JsonModel,
    d1: Direction,
    op1: Seq<char>,
    d2: Direction,
    op2: Seq<char>,
    path: Seq<char>,
    acc: Seq<(Seq<char>, JsonModel)>,
    req: Seq<Seq<char>>,
)
    requires
        annotation_free(x),
    ensures
        resolve_entry_spec(k, x, d1, op1, path, Seq::empty(), acc, req) == resolve_entry_spec(
            k,
            x,
            d2,
            op2,
            path,
            Seq::empty(),
            acc,
            req,
        ),
    decreases x, 4nat,
{
    let cp = crate::text::child_path(path, k);
    if is_annotation_key(k) || k == "required"@ {
    } else if k == "properties"@ {
        match x {
            JsonModel::Object(p) => lemma_prop_entries_indep(
                p,
                0,
                d1,
                op1,
                d2,
                op2,
                cp,
                Seq::empty(),
                req,
            ),
            _ => {},
        }
    } else {
        lemma_member_indep(k, x, d1, op1, d2, op2, cp);
    }
}

proof fn lemma_member_indep(
    k: Seq<char>,
    x: JsonModel,
    d1: Direction,
    op1: Seq<char>,
    d2: Direction,
    op2: Seq<char>,
    path: Seq<char>,
)
    requires
        annotation_free(x),
    ensures
        resolve_member_spec(k, x, d1, op1, path) == resolve_member_spec(k, x, d2, op2, path),
    decreases x, 3nat,
{
    if k == "$defs"@ || k == "definitions"@ {
        match x {
            JsonModel::Object(p) => lemma_def_entries_indep(p, 0, d1, op1, d2, op2, path, Seq::empty()),
            _ => {},
        }
    } else if k == "allOf"@ {
        match x {
            JsonModel::Array(a) => {
                lemma_key_is_annotation(d1);
                lemma_key_is_annotation(d2);
                lemma_collect_none(a, crate::types::annotation_key_of(d1));
                lemma_collect_none(a, crate::types::annotation_key_of(d2));
                lemma_branches_indep(a, 0, d1, op1, d2, op2, path, Seq::empty());
            },
            _ => {},
        }
    } else {
        lemma_value_indep(x, d1, op1, d2, op2, path);
    }
}

proof fn lemma_def_entries_indep(
    p: Seq<(Seq<char>, JsonModel)>,
    i: nat,
    d1: Direction,
    op1: Seq<char>,
    d2: Direction,
    op2: Seq<char>,
    path: Seq<char>,
    acc: Seq<(Seq<char>, JsonModel)>,
)
    requires
        entries_free(p),
    ensures
        resolve_def_entries_spec(p, i, d1, op1, path, acc) == resolve_def_entries_spec(
            p,
            i,
            d2,
            op2,
            path,
            acc,
        ),
    decreases p, p.len() - i,
{
    if i < p.len() {
        let cp = crate::text::child_path(path, p[i as int].0);
        assert(annotation_free(p[i as int].1));
        lemma_value_indep(p[i as int].1, d1, op1, d2, op2, cp);
        let r = resolve_value_spec(p[i as int].1, d1, op1, cp);
        if r is Ok {
            lemma_def_entries_indep(p, i + 1, d1, op1, d2, op2, path, acc.push((p[i as int].0, r->Ok_0)));
        }
    }
}

proof fn lemma_branches_indep(
    a: Seq<JsonModel>,
    i: nat,
    d1: Direction,
    op1: Seq<char>,
    d2: Direction,
    op2: Seq<char>,
    path: Seq<char>,
    acc: Seq<JsonModel>,
)
    requires
        items_free(a),
    ensures
        resolve_branches_spec(a, i, d1, op1, path, Seq::empty(), acc) == resolve_branches_spec(
            a,
            i,
            d2,
            op2,
            path,
            Seq::empty(),
            acc,
        ),
    decreases a, a.len() - i,
{
    if i < a.len() {
        let ip = crate::text::child_path(path, crate::text::decimal(i));
        let b = a[i as int];
        assert(annotation_free(b));
        let e: Seq<(Seq<char>, JsonModel)> = Seq::empty();
        assert(crate::allof::monotonicity_spec(b, e, crate::types::annotation_key_of(d1), op1, ip) is Ok);
        assert(crate::allof::monotonicity_spec(b, e, crate::types::annotation_key_of(d2), op2, ip) is Ok);
        match b {
            JsonModel::Object(bm) => lemma_object_indep(bm, d1, op1, d2, op2, ip),
            _ => lemma_value_indep(b, d1, op1, d2, op2, ip),
        }
        assert(resolve_branch_spec(b, d1, op1, ip, e) == resolve_branch_spec(b, d2, op2, ip, e));
        let r = resolve_branch_spec(b, d1, op1, ip, Seq::empty());
        if r is Ok {
            lemma_branches_indep(a, i + 1, d1, op1, d2, op2, path, acc.push(r->Ok_0));
        }
    }
}

proof fn lemma_prop_entries_indep(
    p: Seq<(Seq<char>, JsonModel)>,
    i: nat,
    d1: Direction,
    op1: Seq<char>,
    d2: Direction,
    op2: Seq<char>,
    path: Seq<char>,
    acc: Seq<(Seq<char>, JsonModel)>,
    req: Seq<Seq<char>>,
)
    requires
        entries_free(p),
    ensures
        resolve_prop_entries_spec(p, i, d1, op1, path, Seq::empty(), acc, req)
            == resolve_prop_entries_spec(p, i, d2, op2, path, Seq::empty(), acc, req),
    decreases p, p.len() - i,
{
    if i < p.len() {
        let name = p[i as int].0;
        let pv = p[i as int].1;
        let pp = crate::text::child_path(path, name);
        assert(!is_annotation_key(p[i as int].0));
        assert(annotation_free(pv));
        lemma_key_is_annotation(d1);
        lemma_key_is_annotation(d2);
        match pv {
            JsonModel::Object(pm) => {
                lemma_free_no_key(pm, crate::types::annotation_key_of(d1));
                lemma_free_no_key(pm, crate::types::annotation_key_of(d2));
            },
            _ => {},
        }
        lemma_value_indep(pv, d1, op1, d2, op2, pp);
        let e: Seq<(Seq<char>, JsonModel)> = Seq::empty();
        assert(crate::resolver::effective_visibility_spec(pv, d1, op1, pp, e, name) == crate::resolver::effective_visibility_spec(pv, d2, op2, pp, e, name));
        let r = resolve_prop_spec(name, pv, d1, op1, path, Seq::empty(), acc, req);
        assert(r == resolve_prop_spec(name, pv, d2, op2, path, Seq::empty(), acc, req));
        if r is Ok {
            lemma_prop_entries_indep(p, i + 1, d1, op1, d2, op2, path, r->Ok_0.0, r->Ok_0.1);
        }
    }
}

/// Annotations are the only input to resolution's decisions: once they are
/// stripped, resolving for any two directions and operations gives one and
/// the same result.
pub proof fn lemma_stripped_resolution_fixed(
    s: JsonModel,
    d1: Direction,
    op1: Seq<char>,
    d2: Direction,
    op2: Seq<char>,
    strict: bool,
)
    ensures
        resolve_spec(strip_spec(s), d1, op1, strict) == resolve_spec(strip_spec(s), d2, op2, strict),
{
    lemma_strip_free(s);
    lemma_value_indep(strip_spec(s), d1, op1, d2, op2, Seq::empty());
}

} // verus!
