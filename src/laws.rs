//! Laws that resolution obeys, stated over the models and proved.
use vstd::prelude::*;

use crate::allof::{
    collect_spec, monotonic_entries_spec, monotonic_step_spec, monotonicity_spec, property_path,
    takes_merged, type_check_spec,
};
use crate::error::ResolveErrorModel;
use crate::json::{has_key, obj_get, JsonModel};
use crate::names::{names_json, required_names, with_name, without_name};
use crate::resolver::{
    annotation_spec, effective_visibility_spec, resolve_allof_spec, resolve_branches_spec,
    resolve_entries_spec, resolve_entry_spec, resolve_object_spec, resolve_prop_entries_spec,
    resolve_prop_spec, resolve_properties_spec, resolve_spec, resolve_value_spec,
};
use crate::strict::{closed_tree, lemma_close_closes, lemma_set_get};
use crate::text::{child_path, decimal};
use crate::types::{annotation_key_of, visibility_name, Direction, Visibility};

verus! {

/// Where `obj_get` finds a value, some entry holds that key and value, and no
/// earlier entry holds the key.
pub proof fn lemma_obj_get_found(m: Seq<(Seq<char>, JsonModel)>, k: Seq<char>)
    requires
        obj_get(m, k) is Some,
    ensures
        exists|j: int|
            0 <= j < m.len() && #[trigger] m[j] == (k, obj_get(m, k).unwrap()) && forall|i: int|
                0 <= i < j ==> #[trigger] m[i].0 != k,
    decreases m.len(),
{
    if m[0].0 == k {
        assert(m[0] == (k, obj_get(m, k).unwrap()));
    } else {
        let t = m.drop_first();
        lemma_obj_get_found(t, k);
        let j = choose|j: int|
            0 <= j < t.len() && #[trigger] t[j] == (k, obj_get(t, k).unwrap()) && forall|i: int|
                0 <= i < j ==> #[trigger] t[i].0 != k;
        assert(m[j + 1] == t[j]);
        assert forall|i: int| 0 <= i < j + 1 implies #[trigger] m[i].0 != k by {
            if i > 0 {
                assert(m[i] == t[i - 1]);
            }
        }
    }
}

/// The monotonicity check over the merged annotations fails where the check
/// of one of them fails.
pub proof fn lemma_monotonic_entries_fail(
    merged: Seq<(Seq<char>, JsonModel)>,
    props: Seq<(Seq<char>, JsonModel)>,
    breq: Seq<Seq<char>>,
    key: Seq<char>,
    op: Seq<char>,
    path: Seq<char>,
    j: int,
)
    requires
        0 <= j < merged.len(),
        monotonic_step_spec(merged[j].0, merged[j].1, props, breq, key, op, path) is Err,
    ensures
        monotonic_entries_spec(merged, props, breq, key, op, path) is Err,
    decreases j,
{
    if j > 0 {
        if monotonic_step_spec(merged[0].0, merged[0].1, props, breq, key, op, path) is Ok {
            let t = merged.drop_first();
            assert(t[j - 1] == merged[j]);
            lemma_monotonic_entries_fail(t, props, breq, key, op, path, j - 1);
        }
    }
}

proof fn lemma_branches_fail(
    a: Seq<JsonModel>,
    k: nat,
    d: Direction,
    op: Seq<char>,
    path: Seq<char>,
    merged: Seq<(Seq<char>, JsonModel)>,
    acc: Seq<JsonModel>,
    i: nat,
)
    requires
        k <= i < a.len(),
        monotonicity_spec(a[i as int], merged, annotation_key_of(d), op, child_path(path, decimal(i)))
            is Err,
    ensures
        resolve_branches_spec(a, k, d, op, path, merged, acc) is Err,
    decreases i - k,
{
    if k < i {
        let ip = child_path(path, decimal(k));
        if monotonicity_spec(a[k as int], merged, annotation_key_of(d), op, ip) is Ok {
            let r = crate::resolver::resolve_branch_spec(a[k as int], d, op, ip, merged);
            if r is Ok {
                lemma_branches_fail(a, k + 1, d, op, path, merged, acc.push(r->Ok_0), i);
            }
        }
    }
}

/// Monotonicity: where a branch of an `allOf` (at any index `i`) lists `name`
/// in its `required` array, and the annotation that the branches hand down
/// for `name` (the last one given) makes it `omit` or `optional`, resolution
/// of the `allOf` fails, and the check of `name` against that branch is a
/// `MonotonicityViolation`.
pub proof fn lemma_monotonicity(
    a: Seq<JsonModel>,
    d: Direction,
    op: Seq<char>,
    path: Seq<char>,
    props: Seq<(Seq<char>, JsonModel)>,
    name: Seq<char>,
    i: nat,
)
    requires
        i < a.len(),
        a[i as int] is Object,
        obj_get(a[i as int]->Object_0, "properties"@) == Some(JsonModel::Object(props)),
        required_names(a[i as int]->Object_0).contains(name),
        takes_merged(props, name, annotation_key_of(d)),
        obj_get(collect_spec(a, annotation_key_of(d)), name) is Some,
        ({
            let ann = obj_get(collect_spec(a, annotation_key_of(d)), name).unwrap();
            let r = annotation_spec(ann, op, property_path(child_path(path, decimal(i)), name));
            r is Ok && (r->Ok_0.0 == Visibility::Omit || r->Ok_0.0 == Visibility::Optional)
        }),
    ensures
        resolve_allof_spec(JsonModel::Array(a), d, op, path) is Err,
        ({
            let ann = obj_get(collect_spec(a, annotation_key_of(d)), name).unwrap();
            let ip = child_path(path, decimal(i));
            let v = annotation_spec(ann, op, property_path(ip, name))->Ok_0.0;
            monotonic_step_spec(
                name,
                ann,
                props,
                required_names(a[i as int]->Object_0),
                annotation_key_of(d),
                op,
                ip,
            ) == Err::<(), ResolveErrorModel>(
                ResolveErrorModel::MonotonicityViolation {
                    path: property_path(ip, name),
                    field: name,
                    base_status: "required"@,
                    attempted: visibility_name(v),
                },
            )
        }),
{
    let key = annotation_key_of(d);
    let merged = collect_spec(a, key);
    let ip = child_path(path, decimal(i));
    let bm = a[i as int]->Object_0;
    lemma_obj_get_found(merged, name);
    let j = choose|j: int|
        0 <= j < merged.len() && #[trigger] merged[j] == (name, obj_get(merged, name).unwrap())
            && forall|x: int| 0 <= x < j ==> #[trigger] merged[x].0 != name;
    lemma_monotonic_entries_fail(merged, props, required_names(bm), key, op, ip, j);
    assert(monotonicity_spec(a[i as int], merged, key, op, ip) is Err);
    if type_check_spec(Seq::empty(), a, path) is Ok {
        lemma_branches_fail(a, 0, d, op, path, merged, Seq::empty(), i);
    }
}

/// Entries whose keys are pairwise distinct, as in any parsed JSON object.
pub open spec fn keys_unique(m: Seq<(Seq<char>, JsonModel)>) -> bool {
    forall|i: int, j: int| 0 <= i < j < m.len() ==> #[trigger] m[i].0 != #[trigger] m[j].0
}

/// Removing a name keeps exactly the other names.
pub proof fn lemma_without_contains(req: Seq<Seq<char>>, x: Seq<char>, n: Seq<char>)
    ensures
        without_name(req, x).contains(n) <==> (req.contains(n) && n != x),
    decreases req.len(),
{
    if req.len() > 0 {
        let p = req.drop_last();
        lemma_without_contains(p, x, n);
        if req.contains(n) && n != x {
            let j = choose|j: int| 0 <= j < req.len() && req[j] == n;
            if j < req.len() - 1 {
                assert(p[j] == n);
            }
        }
        if p.contains(n) {
            let j = choose|j: int| 0 <= j < p.len() && p[j] == n;
            assert(req[j] == n);
        }
        let w = without_name(p, x);
        if req.last() != x {
            if w.push(req.last()).contains(n) {
                let j = choose|j: int| 0 <= j < w.len() + 1 && w.push(req.last())[j] == n;
                if j < w.len() {
                    assert(w[j] == n);
                }
            }
            if w.contains(n) {
                let j = choose|j: int| 0 <= j < w.len() && w[j] == n;
                assert(w.push(req.last())[j] == n);
            }
            if n == req.last() {
                assert(w.push(req.last())[w.len() as int] == n);
            }
        }
    }
}

/// Adding a name keeps the names and adds that one.
pub proof fn lemma_with_contains(req: Seq<Seq<char>>, x: Seq<char>, n: Seq<char>)
    ensures
        with_name(req, x).contains(n) <==> (req.contains(n) || n == x),
{
    if !req.contains(x) {
        let r = req.push(x);
        assert(r[req.len() as int] == x);
        if req.contains(n) {
            let j = choose|j: int| 0 <= j < req.len() && req[j] == n;
            assert(r[j] == n);
        }
        if r.contains(n) {
            let j = choose|j: int| 0 <= j < r.len() && r[j] == n;
            if j < req.len() {
                assert(req[j] == n);
            }
        }
    }
}

/// The value under a key after an append: the earlier one where the key was
/// present, the appended one where it is that key.
pub proof fn lemma_obj_get_push(m: Seq<(Seq<char>, JsonModel)>, k: Seq<char>, v: JsonModel, q: Seq<char>)
    ensures
        obj_get(m.push((k, v)), q) == (if has_key(m, q) {
            obj_get(m, q)
        } else if k == q {
            Some(v)
        } else {
            None
        }),
    decreases m.len(),
{
    let n = m.push((k, v));
    if m.len() > 0 {
        let t = m.drop_first();
        assert(n[0] == m[0]);
        assert(n.drop_first() =~= t.push((k, v)));
        lemma_obj_get_push(t, k, v, q);
        if m[0].0 != q {
            assert(obj_get(n, q) == obj_get(t.push((k, v)), q));
            assert(obj_get(m, q) == obj_get(t, q));
        }
    } else {
        assert(n[0] == (k, v));
        let e = n.drop_first();
        assert(e =~= Seq::<(Seq<char>, JsonModel)>::empty());
        assert(obj_get(e, q) is None);
        assert(obj_get(m, q) is None);
    }
}

/// In entries with distinct keys, the entry at `j` is the one found under its key.
pub proof fn lemma_obj_get_unique(m: Seq<(Seq<char>, JsonModel)>, j: int)
    requires
        keys_unique(m),
        0 <= j < m.len(),
    ensures
        obj_get(m, m[j].0) == Some(m[j].1),
    decreases m.len(),
{
    if j > 0 {
        let t = m.drop_first();
        assert(m[0].0 != m[j].0);
        assert forall|a: int, b: int| 0 <= a < b < t.len() implies #[trigger] t[a].0 != #[trigger] t[b].0 by {
            assert(t[a] == m[a + 1]);
            assert(t[b] == m[b + 1]);
        }
        assert(t[j - 1] == m[j]);
        lemma_obj_get_unique(t, j - 1);
    }
}

/// A key absent from every entry is absent.
pub proof fn lemma_obj_get_absent(m: Seq<(Seq<char>, JsonModel)>, q: Seq<char>)
    requires
        forall|j: int| 0 <= j < m.len() ==> #[trigger] m[j].0 != q,
    ensures
        obj_get(m, q) is None,
    decreases m.len(),
{
    if m.len() > 0 {
        let t = m.drop_first();
        assert forall|j: int| 0 <= j < t.len() implies #[trigger] t[j].0 != q by {
            assert(t[j] == m[j + 1]);
        }
        lemma_obj_get_absent(t, q);
    }
}

proof fn lemma_omit_prop_entries(
    p: Seq<(Seq<char>, JsonModel)>,
    i: nat,
    d: Direction,
    op: Seq<char>,
    path: Seq<char>,
    inh: Seq<(Seq<char>, JsonModel)>,
    acc: Seq<(Seq<char>, JsonModel)>,
    req: Seq<Seq<char>>,
    jn: int,
)
    requires
        keys_unique(p),
        0 <= jn < p.len(),
        i <= p.len(),
        effective_visibility_spec(
            p[jn].1,
            d,
            op,
            child_path(path, p[jn].0),
            inh,
            p[jn].0,
        ) is Ok,
        effective_visibility_spec(
            p[jn].1,
            d,
            op,
            child_path(path, p[jn].0),
            inh,
            p[jn].0,
        )->Ok_0.0 == Visibility::Omit,
        !has_key(acc, p[jn].0),
        i > jn ==> !req.contains(p[jn].0),
        resolve_prop_entries_spec(p, i, d, op, path, inh, acc, req) is Ok,
    ensures
        !has_key(resolve_prop_entries_spec(p, i, d, op, path, inh, acc, req)->Ok_0.0, p[jn].0),
        !resolve_prop_entries_spec(p, i, d, op, path, inh, acc, req)->Ok_0.1.contains(p[jn].0),
    decreases p.len() - i,
{
    let n = p[jn].0;
    if i < p.len() {
        let name = p[i as int].0;
        let step = resolve_prop_spec(name, p[i as int].1, d, op, path, inh, acc, req)->Ok_0;
        if i as int == jn {
            lemma_without_contains(req, n, n);
        } else {
            assert(name != n);
            let ev = effective_visibility_spec(p[i as int].1, d, op, child_path(path, name), inh, name);
            lemma_without_contains(req, name, n);
            lemma_with_contains(req, name, n);
            if !crate::types::is_annotation_key(name) && ev->Ok_0.0 != Visibility::Omit {
                let out = step.0;
                let v = out.last().1;
                assert(out == acc.push((name, v)));
                lemma_obj_get_push(acc, name, v, n);
            }
        }
        lemma_omit_prop_entries(p, i + 1, d, op, path, inh, step.0, step.1, jn);
    }
}

proof fn lemma_omit_entries(
    m: Seq<(Seq<char>, JsonModel)>,
    i: nat,
    d: Direction,
    op: Seq<char>,
    path: Seq<char>,
    inh: Seq<(Seq<char>, JsonModel)>,
    acc: Seq<(Seq<char>, JsonModel)>,
    req: Seq<Seq<char>>,
    ip: int,
    jn: int,
)
    requires
        keys_unique(m),
        0 <= ip < m.len(),
        i <= m.len(),
        m[ip].0 == "properties"@,
        m[ip].1 is Object,
        keys_unique(m[ip].1->Object_0),
        0 <= jn < m[ip].1->Object_0.len(),
        ({
            let p = m[ip].1->Object_0;
            let pp = child_path(child_path(path, "properties"@), p[jn].0);
            effective_visibility_spec(p[jn].1, d, op, pp, inh, p[jn].0) is Ok
                && effective_visibility_spec(p[jn].1, d, op, pp, inh, p[jn].0)->Ok_0.0
                == Visibility::Omit
        }),
        obj_get(acc, "required"@) is None || obj_get(acc, "required"@) == Some(JsonModel::Null),
        i <= ip ==> !has_key(acc, "properties"@),
        i > ip ==> !req.contains(m[ip].1->Object_0[jn].0),
        i > ip ==> (obj_get(acc, "properties"@) matches Some(JsonModel::Object(out))
            && !has_key(out, m[ip].1->Object_0[jn].0)),
        resolve_entries_spec(m, i, d, op, path, inh, acc, req) is Ok,
    ensures
        ({
            let (acc2, req2) = resolve_entries_spec(m, i, d, op, path, inh, acc, req)->Ok_0;
            &&& (obj_get(acc2, "required"@) is None || obj_get(acc2, "required"@) == Some(JsonModel::Null))
            &&& !req2.contains(m[ip].1->Object_0[jn].0)
            &&& obj_get(acc2, "properties"@) matches Some(JsonModel::Object(out))
            &&& !has_key(out, m[ip].1->Object_0[jn].0)
        }),
    decreases m.len() - i,
{
    let n = m[ip].1->Object_0[jn].0;
    reveal_strlit("properties");
    reveal_strlit("required");
    reveal_strlit("ucp_request");
    reveal_strlit("ucp_response");
    assert("properties"@[0] != "ucp_request"@[0]);
    assert("properties"@[0] != "ucp_response"@[0]);
    assert("properties"@[0] != "required"@[0]);
    if i < m.len() {
        let k = m[i as int].0;
        let x = m[i as int].1;
        let cp = child_path(path, k);
        let step = resolve_entry_spec(k, x, d, op, path, inh, acc, req)->Ok_0;
        if crate::types::is_annotation_key(k) {
        } else if k == "required"@ {
            lemma_obj_get_push(acc, k, JsonModel::Null, "properties"@);
            lemma_obj_get_push(acc, k, JsonModel::Null, "required"@);
        } else if k == "properties"@ {
            assert(i as int == ip) by {
                if i as int != ip {
                    assert(m[i as int].0 != m[ip].0);
                }
            }
            let p = x->Object_0;
            lemma_omit_prop_entries(p, 0, d, op, cp, inh, Seq::empty(), req, jn);
            let pv = resolve_properties_spec(x, d, op, cp, inh, req)->Ok_0.0;
            lemma_obj_get_push(acc, k, pv, "properties"@);
            lemma_obj_get_push(acc, k, pv, "required"@);
        } else {
            let r = crate::resolver::resolve_member_spec(k, x, d, op, cp)->Ok_0;
            lemma_obj_get_push(acc, k, r, "properties"@);
            lemma_obj_get_push(acc, k, r, "required"@);
        }
        lemma_omit_entries(m, i + 1, d, op, path, inh, step.0, step.1, ip, jn);
    }
}

/// An omitted property is gone: where a property of any object schema that
/// resolution reaches resolves to `omit` (by its own annotation, or, in an
/// `allOf` branch, by the one handed down in `inh`), it is absent from the
/// resolved `properties` and from the resolved `required` array.
pub proof fn lemma_omit_removes(
    m: Seq<(Seq<char>, JsonModel)>,
    d: Direction,
    op: Seq<char>,
    path: Seq<char>,
    inh: Seq<(Seq<char>, JsonModel)>,
    p: Seq<(Seq<char>, JsonModel)>,
    name: Seq<char>,
)
    requires
        keys_unique(m),
        keys_unique(p),
        obj_get(m, "properties"@) == Some(JsonModel::Object(p)),
        obj_get(p, name) is Some,
        effective_visibility_spec(
            obj_get(p, name).unwrap(),
            d,
            op,
            child_path(child_path(path, "properties"@), name),
            inh,
            name,
        ) matches Ok((v, _)) && v == Visibility::Omit,
        resolve_object_spec(m, d, op, path, inh) is Ok,
    ensures
        ({
            let out = resolve_object_spec(m, d, op, path, inh)->Ok_0;
            &&& out is Object
            &&& obj_get(out->Object_0, "properties"@) matches Some(JsonModel::Object(rp))
            &&& !has_key(rp, name)
            &&& !(obj_get(out->Object_0, "required"@) matches Some(JsonModel::Array(r))
                && r.contains(JsonModel::String(name)))
        }),
{
    lemma_obj_get_found(m, "properties"@);
    let ip = choose|j: int|
        0 <= j < m.len() && #[trigger] m[j] == ("properties"@, obj_get(m, "properties"@).unwrap())
            && forall|i: int| 0 <= i < j ==> #[trigger] m[i].0 != "properties"@;
    lemma_obj_get_found(p, name);
    let jn = choose|j: int|
        0 <= j < p.len() && #[trigger] p[j] == (name, obj_get(p, name).unwrap()) && forall|i: int|
            0 <= i < j ==> #[trigger] p[i].0 != name;
    let e: Seq<(Seq<char>, JsonModel)> = Seq::empty();
    assert(!has_key(e, "properties"@));
    let req0 = required_names(m);
    lemma_omit_entries(m, 0, d, op, path, inh, e, req0, ip, jn);
    let (acc, req) = resolve_entries_spec(m, 0, d, op, path, inh, e, req0)->Ok_0;
    let rp = obj_get(acc, "properties"@)->Some_0->Object_0;
    if req.len() > 0 || has_key(m, "required"@) {
        lemma_set_get(acc, "required"@, names_json(req), "properties"@);
        lemma_set_get(acc, "required"@, names_json(req), "required"@);
        let r = names_json(req)->Array_0;
        if r.contains(JsonModel::String(name)) {
            let j = choose|j: int| 0 <= j < r.len() && r[j] == JsonModel::String(name);
            assert(req[j] == name);
        }
    }
}

/// A sequence without repeated elements.
pub open spec fn no_repeats<A>(s: Seq<A>) -> bool {
    forall|i: int, j: int| 0 <= i < j < s.len() ==> s[i] != s[j]
}

/// Removing a name keeps a list free of repeats.
pub proof fn lemma_without_no_repeats(req: Seq<Seq<char>>, x: Seq<char>)
    requires
        no_repeats(req),
    ensures
        no_repeats(without_name(req, x)),
    decreases req.len(),
{
    if req.len() > 0 {
        let p = req.drop_last();
        assert(no_repeats(p)) by {
            assert forall|i: int, j: int| 0 <= i < j < p.len() implies p[i] != p[j] by {
                assert(p[i] == req[i] && p[j] == req[j]);
            }
        }
        lemma_without_no_repeats(p, x);
        let w = without_name(p, x);
        if req.last() != x {
            lemma_without_contains(p, x, req.last());
            assert(!p.contains(req.last())) by {
                if p.contains(req.last()) {
                    let j = choose|j: int| 0 <= j < p.len() && p[j] == req.last();
                    assert(req[j] == req[req.len() - 1]);
                }
            }
            let r = w.push(req.last());
            assert forall|i: int, j: int| 0 <= i < j < r.len() implies r[i] != r[j] by {
                if j == w.len() {
                    assert(r[i] == w[i]);
                    assert(w.contains(w[i]));
                } else {
                    assert(r[i] == w[i] && r[j] == w[j]);
                }
            }
        }
    }
}

/// Adding a name keeps a list free of repeats.
pub proof fn lemma_with_no_repeats(req: Seq<Seq<char>>, x: Seq<char>)
    requires
        no_repeats(req),
    ensures
        no_repeats(with_name(req, x)),
{
    if !req.contains(x) {
        let r = req.push(x);
        assert forall|i: int, j: int| 0 <= i < j < r.len() implies r[i] != r[j] by {
            if j == req.len() {
                assert(r[i] == req[i]);
            } else {
                assert(r[i] == req[i] && r[j] == req[j]);
            }
        }
    }
}

/// Every name in `req` is a key of `acc` or of the entries of `p` from `i` on.
pub open spec fn names_covered(
    req: Seq<Seq<char>>,
    acc: Seq<(Seq<char>, JsonModel)>,
    p: Seq<(Seq<char>, JsonModel)>,
    i: int,
) -> bool {
    forall|r: int|
        0 <= r < req.len() ==> has_key(acc, #[trigger] req[r]) || exists|j: int|
            i <= j < p.len() && p[j].0 == req[r]
}

proof fn lemma_required_prop_entries(
    p: Seq<(Seq<char>, JsonModel)>,
    i: nat,
    d: Direction,
    op: Seq<char>,
    path: Seq<char>,
    inh: Seq<(Seq<char>, JsonModel)>,
    acc: Seq<(Seq<char>, JsonModel)>,
    req: Seq<Seq<char>>,
)
    requires
        i <= p.len(),
        keys_unique(p),
        no_repeats(req),
        names_covered(req, acc, p, i as int),
        resolve_prop_entries_spec(p, i, d, op, path, inh, acc, req) is Ok,
    ensures
        ({
            let (acc2, req2) = resolve_prop_entries_spec(p, i, d, op, path, inh, acc, req)->Ok_0;
            no_repeats(req2) && forall|r: int| 0 <= r < req2.len() ==> has_key(acc2, #[trigger] req2[r])
        }),
    decreases p.len() - i,
{
    if i < p.len() {
        let name = p[i as int].0;
        let step = resolve_prop_spec(name, p[i as int].1, d, op, path, inh, acc, req)->Ok_0;
        let ev = effective_visibility_spec(p[i as int].1, d, op, child_path(path, name), inh, name);
        let (acc2, req2) = step;
        lemma_without_no_repeats(req, name);
        lemma_with_no_repeats(req, name);
        assert forall|r: int| 0 <= r < req2.len() implies has_key(acc2, #[trigger] req2[r]) || exists|j: int|
            i + 1 <= j < p.len() && p[j].0 == req2[r] by {
            let x = req2[r];
            lemma_without_contains(req, name, x);
            lemma_with_contains(req, name, x);
            assert(req2.contains(x));
            if !crate::types::is_annotation_key(name) && ev->Ok_0.0 != Visibility::Omit {
                let v = acc2.last().1;
                assert(acc2 == acc.push((name, v)));
                lemma_obj_get_push(acc, name, v, x);
            }
            if x != name {
                assert(req.contains(x));
                let ri = choose|ri: int| 0 <= ri < req.len() && req[ri] == x;
                if !has_key(acc, x) {
                    let j = choose|j: int| i <= j < p.len() && p[j].0 == req[ri];
                    assert(j != i);
                }
            }
        }
        lemma_required_prop_entries(p, i + 1, d, op, path, inh, acc2, req2);
    } else {
        assert forall|r: int| 0 <= r < req.len() implies has_key(acc, #[trigger] req[r]) by {
            if !has_key(acc, req[r]) {
                let j = choose|j: int| i <= j < p.len() && p[j].0 == req[r];
            }
        }
    }
}

proof fn lemma_required_entries(
    m: Seq<(Seq<char>, JsonModel)>,
    i: nat,
    d: Direction,
    op: Seq<char>,
    path: Seq<char>,
    inh: Seq<(Seq<char>, JsonModel)>,
    acc: Seq<(Seq<char>, JsonModel)>,
    req: Seq<Seq<char>>,
    ip: int,
)
    requires
        keys_unique(m),
        0 <= ip < m.len(),
        i <= m.len(),
        m[ip].0 == "properties"@,
        m[ip].1 is Object,
        keys_unique(m[ip].1->Object_0),
        obj_get(acc, "required"@) is None || obj_get(acc, "required"@) == Some(JsonModel::Null),
        i <= ip ==> !has_key(acc, "properties"@) && no_repeats(req) && forall|r: int|
            0 <= r < req.len() ==> has_key(m[ip].1->Object_0, #[trigger] req[r]),
        i > ip ==> no_repeats(req) && (obj_get(acc, "properties"@) matches Some(JsonModel::Object(out))
            && forall|r: int| 0 <= r < req.len() ==> has_key(out, #[trigger] req[r])),
        resolve_entries_spec(m, i, d, op, path, inh, acc, req) is Ok,
    ensures
        ({
            let (acc2, req2) = resolve_entries_spec(m, i, d, op, path, inh, acc, req)->Ok_0;
            &&& (obj_get(acc2, "required"@) is None || obj_get(acc2, "required"@) == Some(JsonModel::Null))
            &&& no_repeats(req2)
            &&& obj_get(acc2, "properties"@) matches Some(JsonModel::Object(out))
            &&& forall|r: int| 0 <= r < req2.len() ==> has_key(out, #[trigger] req2[r])
        }),
    decreases m.len() - i,
{
    reveal_strlit("properties");
    reveal_strlit("required");
    reveal_strlit("ucp_request");
    reveal_strlit("ucp_response");
    assert("properties"@[0] != "ucp_request"@[0]);
    assert("properties"@[0] != "ucp_response"@[0]);
    assert("properties"@[0] != "required"@[0]);
    if i < m.len() {
        let k = m[i as int].0;
        let x = m[i as int].1;
        let cp = child_path(path, k);
        let step = resolve_entry_spec(k, x, d, op, path, inh, acc, req)->Ok_0;
        if crate::types::is_annotation_key(k) {
        } else if k == "required"@ {
            lemma_obj_get_push(acc, k, JsonModel::Null, "properties"@);
            lemma_obj_get_push(acc, k, JsonModel::Null, "required"@);
        } else if k == "properties"@ {
            assert(i as int == ip) by {
                if i as int != ip {
                    assert(m[i as int].0 != m[ip].0);
                }
            }
            let p = x->Object_0;
            let e: Seq<(Seq<char>, JsonModel)> = Seq::empty();
            assert forall|r: int| 0 <= r < req.len() implies has_key(e, #[trigger] req[r]) || exists|j: int|
                0 <= j < p.len() && p[j].0 == req[r] by {
                lemma_obj_get_found(p, req[r]);
            }
            lemma_required_prop_entries(p, 0, d, op, cp, inh, e, req);
            let pv = resolve_properties_spec(x, d, op, cp, inh, req)->Ok_0.0;
            lemma_obj_get_push(acc, k, pv, "properties"@);
            lemma_obj_get_push(acc, k, pv, "required"@);
        } else {
            let r = crate::resolver::resolve_member_spec(k, x, d, op, cp)->Ok_0;
            lemma_obj_get_push(acc, k, r, "properties"@);
            lemma_obj_get_push(acc, k, r, "required"@);
        }
        lemma_required_entries(m, i + 1, d, op, path, inh, step.0, step.1, ip);
    }
}

/// Resolved `required` arrays are sound: where any object schema's
/// `properties` is an object and its `required` array names distinct
/// properties of it, the resolved `required` array (where there is one) holds
/// distinct names, each a key of the resolved `properties`.
pub proof fn lemma_required_sound(
    m: Seq<(Seq<char>, JsonModel)>,
    d: Direction,
    op: Seq<char>,
    path: Seq<char>,
    inh: Seq<(Seq<char>, JsonModel)>,
    p: Seq<(Seq<char>, JsonModel)>,
)
    requires
        keys_unique(m),
        keys_unique(p),
        obj_get(m, "properties"@) == Some(JsonModel::Object(p)),
        no_repeats(required_names(m)),
        forall|r: int|
            0 <= r < required_names(m).len() ==> has_key(p, #[trigger] required_names(m)[r]),
        resolve_object_spec(m, d, op, path, inh) is Ok,
    ensures
        ({
            let out = resolve_object_spec(m, d, op, path, inh)->Ok_0;
            &&& out is Object
            &&& obj_get(out->Object_0, "properties"@) matches Some(JsonModel::Object(rp))
            &&& obj_get(out->Object_0, "required"@) matches Some(JsonModel::Array(ra)) ==> no_repeats(ra)
                && forall|r: int| 0 <= r < ra.len() ==> (#[trigger] ra[r] matches JsonModel::String(n)
                    && has_key(rp, n))
        }),
{
    lemma_obj_get_found(m, "properties"@);
    let ip = choose|j: int|
        0 <= j < m.len() && #[trigger] m[j] == ("properties"@, obj_get(m, "properties"@).unwrap())
            && forall|i: int| 0 <= i < j ==> #[trigger] m[i].0 != "properties"@;
    let e: Seq<(Seq<char>, JsonModel)> = Seq::empty();
    assert(!has_key(e, "properties"@));
    let req0 = required_names(m);
    lemma_required_entries(m, 0, d, op, path, inh, e, req0, ip);
    let (acc, req) = resolve_entries_spec(m, 0, d, op, path, inh, e, req0)->Ok_0;
    let rp = obj_get(acc, "properties"@)->Some_0->Object_0;
    if req.len() > 0 || has_key(m, "required"@) {
        lemma_set_get(acc, "required"@, names_json(req), "properties"@);
        lemma_set_get(acc, "required"@, names_json(req), "required"@);
        let ra = names_json(req)->Array_0;
        assert forall|r: int| 0 <= r < ra.len() implies (#[trigger] ra[r] matches JsonModel::String(n)
            && has_key(rp, n)) by {
            assert(ra[r] == JsonModel::String(req[r]));
        }
        assert forall|a: int, b: int| 0 <= a < b < ra.len() implies ra[a] != ra[b] by {
            assert(ra[a] == JsonModel::String(req[a]));
            assert(ra[b] == JsonModel::String(req[b]));
        }
    }
}

/// Strict resolution closes: where `strict` is set, every node of the result
/// that closing visits and that describes objects or composes, other than a
/// direct branch of `allOf`, `anyOf` or `oneOf`, holds `additionalProperties`
/// (or, where it composes, `unevaluatedProperties`) as `false`, or as the
/// schema it held before.
pub proof fn lemma_strict_closes(s: JsonModel, d: Direction, op: Seq<char>)
    requires
        resolve_spec(s, d, op, true) is Ok,
    ensures
        closed_tree(resolve_spec(s, d, op, true)->Ok_0, false),
{
    lemma_close_closes(resolve_value_spec(s, d, op, Seq::empty())->Ok_0, false);
}

} // verus!
