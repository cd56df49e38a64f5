//! The checks and the annotation merge that `allOf` resolution runs over its branches.
use vstd::prelude::*;
use vstd::string::*;

use crate::error::{ResolveError, ResolveErrorModel};
use crate::json::{
    entries_model, get_entry, has_key, items_model, lemma_object_view, lemma_prefix_step, lemma_suffix_ends, lemma_suffix_step, obj_get,
    obj_set, set_entry, Json, JsonModel,
};
use crate::names::{contains_name, names_model, required_list, required_names};
use crate::resolver::{annotation_spec, get_visibility_from_annotation};
use crate::text::{child_path, join_path};
use crate::types::{visibility_name, Visibility};

verus! {

/// `acc` with the `key` annotation of each object property in `props` set
/// under the property's name, a later one replacing an earlier one.
pub open spec fn collect_props_spec(
    acc: Seq<(Seq<char>, JsonModel)>,
    props: Seq<(Seq<char>, JsonModel)>,
    key: Seq<char>,
) -> Seq<(Seq<char>, JsonModel)>
    decreases props.len(),
{
    if props.len() == 0 {
        acc
    } else {
        let a = collect_props_spec(acc, props.drop_last(), key);
        let (name, pv) = props.last();
        match pv {
            JsonModel::Object(pm) => match obj_get(pm, key) {
                Some(ann) => obj_set(a, name, ann),
                None => a,
            },
            _ => a,
        }
    }
}

/// The `key` annotations of the properties of all branches, by property name;
/// where several branches annotate one name, the last one wins.
pub open spec fn collect_spec(branches: Seq<JsonModel>, key: Seq<char>) -> Seq<(Seq<char>, JsonModel)>
    decreases branches.len(),
{
    if branches.len() == 0 {
        Seq::empty()
    } else {
        let acc = collect_spec(branches.drop_last(), key);
        match branches.last() {
            JsonModel::Object(bm) => match obj_get(bm, "properties"@) {
                Some(JsonModel::Object(props)) => collect_props_spec(acc, props, key),
                _ => acc,
            },
            _ => acc,
        }
    }
}

/// The path of the property `name` of the schema at `path`.
pub open spec fn property_path(path: Seq<char>, name: Seq<char>) -> Seq<char> {
    child_path(child_path(path, "properties"@), name)
}

/// The property types seen so far, extended by the string `type` of the
/// property `name`, or the conflict between that type and the one recorded.
pub open spec fn type_step_spec(
    ts: Seq<(Seq<char>, JsonModel)>,
    name: Seq<char>,
    pv: JsonModel,
    path: Seq<char>,
) -> Result<Seq<(Seq<char>, JsonModel)>, ResolveErrorModel> {
    match pv {
        JsonModel::Object(pm) => match obj_get(pm, "type"@) {
            Some(JsonModel::String(t)) => match obj_get(ts, name) {
                Some(JsonModel::String(existing)) => if existing != t {
                    Err(
                        ResolveErrorModel::TypeConflict {
                            path: property_path(path, name),
                            base_type: existing,
                            ext_type: t,
                        },
                    )
                } else {
                    Ok(ts)
                },
                Some(_) => Ok(ts),
                None => Ok(ts.push((name, JsonModel::String(t)))),
            },
            _ => Ok(ts),
        },
        _ => Ok(ts),
    }
}

/// The property types seen so far, extended by those of `props` in order, or
/// the first conflict.
pub open spec fn type_props_spec(
    ts: Seq<(Seq<char>, JsonModel)>,
    props: Seq<(Seq<char>, JsonModel)>,
    path: Seq<char>,
) -> Result<Seq<(Seq<char>, JsonModel)>, ResolveErrorModel>
    decreases props.len(),
{
    if props.len() == 0 {
        Ok(ts)
    } else {
        match type_step_spec(ts, props[0].0, props[0].1, path) {
            Err(e) => Err(e),
            Ok(ts2) => type_props_spec(ts2, props.drop_first(), path),
        }
    }
}

/// The property types seen so far, extended by those of one branch.
pub open spec fn branch_types_spec(
    ts: Seq<(Seq<char>, JsonModel)>,
    branch: JsonModel,
    path: Seq<char>,
) -> Result<Seq<(Seq<char>, JsonModel)>, ResolveErrorModel> {
    match branch {
        JsonModel::Object(bm) => match obj_get(bm, "properties"@) {
            Some(JsonModel::Object(props)) => type_props_spec(ts, props, path),
            _ => Ok(ts),
        },
        _ => Ok(ts),
    }
}

/// The property types of the branches, added in order to `ts`, or the first
/// conflict: a property whose string `type` differs from the one an earlier
/// occurrence gave it.
pub open spec fn type_check_spec(
    ts: Seq<(Seq<char>, JsonModel)>,
    branches: Seq<JsonModel>,
    path: Seq<char>,
) -> Result<Seq<(Seq<char>, JsonModel)>, ResolveErrorModel>
    decreases branches.len(),
{
    if branches.len() == 0 {
        Ok(ts)
    } else {
        match branch_types_spec(ts, branches[0], path) {
            Err(e) => Err(e),
            Ok(ts2) => type_check_spec(ts2, branches.drop_first(), path),
        }
    }
}

/// Whether the merged annotation of `name` would apply to a branch's property:
/// the property is an object without its own annotation under `key`.
pub open spec fn takes_merged(props: Seq<(Seq<char>, JsonModel)>, name: Seq<char>, key: Seq<char>) -> bool {
    match obj_get(props, name) {
        Some(JsonModel::Object(pm)) => !has_key(pm, key),
        _ => false,
    }
}

/// The check of one merged annotation: an error where it would weaken a
/// property listed in `breq` to `omit` or `optional`, or where it cannot be read.
pub open spec fn monotonic_step_spec(
    name: Seq<char>,
    ann: JsonModel,
    props: Seq<(Seq<char>, JsonModel)>,
    breq: Seq<Seq<char>>,
    key: Seq<char>,
    op: Seq<char>,
    path: Seq<char>,
) -> Result<(), ResolveErrorModel> {
    if takes_merged(props, name, key) && breq.contains(name) {
        let pp = property_path(path, name);
        match annotation_spec(ann, op, pp) {
            Err(e) => Err(e),
            Ok((v, _)) => if v == Visibility::Omit || v == Visibility::Optional {
                Err(
                    ResolveErrorModel::MonotonicityViolation {
                        path: pp,
                        field: name,
                        base_status: "required"@,
                        attempted: visibility_name(v),
                    },
                )
            } else {
                Ok(())
            },
        }
    } else {
        Ok(())
    }
}

/// The first failing check among the merged annotations, in order.
pub open spec fn monotonic_entries_spec(
    merged: Seq<(Seq<char>, JsonModel)>,
    props: Seq<(Seq<char>, JsonModel)>,
    breq: Seq<Seq<char>>,
    key: Seq<char>,
    op: Seq<char>,
    path: Seq<char>,
) -> Result<(), ResolveErrorModel>
    decreases merged.len(),
{
    if merged.len() == 0 {
        Ok(())
    } else {
        match monotonic_step_spec(merged[0].0, merged[0].1, props, breq, key, op, path) {
            Err(e) => Err(e),
            Ok(_) => monotonic_entries_spec(merged.drop_first(), props, breq, key, op, path),
        }
    }
}

/// The monotonicity check of one branch against the merged annotations.
pub open spec fn monotonicity_spec(
    branch: JsonModel,
    merged: Seq<(Seq<char>, JsonModel)>,
    key: Seq<char>,
    op: Seq<char>,
    path: Seq<char>,
) -> Result<(), ResolveErrorModel> {
    match branch {
        JsonModel::Object(bm) => match obj_get(bm, "properties"@) {
            Some(JsonModel::Object(props)) => monotonic_entries_spec(
                merged,
                props,
                required_names(bm),
                key,
                op,
                path,
            ),
            _ => Ok(()),
        },
        _ => Ok(()),
    }
}

fn collect_props(acc: &mut Vec<(String, Json)>, props: &Vec<(String, Json)>, ann_key: &str)
    ensures
        entries_model(final(acc)@) == collect_props_spec(
            entries_model(old(acc)@),
            entries_model(props@),
            ann_key@,
        ),
{
    let ghost a0 = entries_model(acc@);
    let ghost p = entries_model(props@);
    let mut i: usize = 0;
    while i < props.len()
        invariant
            i <= props.len(),
            p == entries_model(props@),
            entries_model(acc@) == collect_props_spec(a0, p.subrange(0, i as int), ann_key@),
        decreases props.len() - i,
    {
        proof {
            lemma_prefix_step(p, i as int);
            assert(p.subrange(0, i + 1).drop_last() == p.subrange(0, i as int));
        }
        match &props[i].1 {
            Json::Object(pm) => {
                proof {
                    lemma_object_view(*pm);
                }
                match get_entry(pm, ann_key) {
                    Some(ann) => {
                        set_entry(acc, props[i].0.as_str(), ann.deep_copy());
                    },
                    None => {},
                }
            },
            _ => {},
        }
        i += 1;
    }
    assert(p.subrange(0, p.len() as int) =~= p);
}

/// The `ann_key` annotations of the properties of all branches, by property
/// name; where several branches annotate one name, the last one wins.
pub fn collect_allof_annotations(branches: &Vec<Json>, ann_key: &str) -> (r: Vec<(String, Json)>)
    ensures
        entries_model(r@) == collect_spec(items_model(branches@), ann_key@),
{
    let ghost b = items_model(branches@);
    let mut merged: Vec<(String, Json)> = Vec::new();
    let mut i: usize = 0;
    while i < branches.len()
        invariant
            i <= branches.len(),
            b == items_model(branches@),
            entries_model(merged@) == collect_spec(b.subrange(0, i as int), ann_key@),
        decreases branches.len() - i,
    {
        proof {
            lemma_prefix_step(b, i as int);
            assert(b.subrange(0, i + 1).drop_last() == b.subrange(0, i as int));
        }
        match &branches[i] {
            Json::Object(bm) => {
                proof {
                    lemma_object_view(*bm);
                }
                match get_entry(bm, "properties") {
                    Some(Json::Object(props)) => {
                        proof {
                            lemma_object_view(*props);
                        }
                        collect_props(&mut merged, props, ann_key);
                    },
                    _ => {},
                }
            },
            _ => {},
        }
        i += 1;
    }
    assert(b.subrange(0, b.len() as int) =~= b);
    merged
}

fn property_path_of(path: &str, name: &str) -> (r: String)
    ensures
        r@ == property_path(path@, name@),
{
    let p = join_path(path, "properties");
    join_path(p.as_str(), name)
}

fn type_props(types: &mut Vec<(String, Json)>, props: &Vec<(String, Json)>, path: &str) -> (r: Result<(), ResolveError>)
    ensures
        match r {
            Ok(_) => type_props_spec(entries_model(old(types)@), entries_model(props@), path@)
                == Ok::<Seq<(Seq<char>, JsonModel)>, ResolveErrorModel>(entries_model(final(types)@)),
            Err(e) => type_props_spec(entries_model(old(types)@), entries_model(props@), path@)
                == Err::<Seq<(Seq<char>, JsonModel)>, ResolveErrorModel>(e@),
        },
{
    let ghost t0 = entries_model(types@);
    let ghost p = entries_model(props@);
    proof {
        lemma_suffix_ends(p);
    }
    let mut i: usize = 0;
    while i < props.len()
        invariant
            i <= props.len(),
            p == entries_model(props@),
            t0 == entries_model(old(types)@),
            type_props_spec(t0, p, path@) == type_props_spec(
                entries_model(types@),
                p.subrange(i as int, p.len() as int),
                path@,
            ),
        decreases props.len() - i,
    {
        proof {
            lemma_suffix_step(p, i as int);
        }
        let name = &props[i].0;
        match &props[i].1 {
            Json::Object(pm) => {
                proof {
                    lemma_object_view(*pm);
                }
                match get_entry(pm, "type") {
                    Some(Json::String(t)) => {
                        match get_entry(types, name.as_str()) {
                            Some(Json::String(existing)) => {
                                if !crate::json::same_text(existing.as_str(), t.as_str()) {
                                    let err = ResolveError::TypeConflict {
                                        path: property_path_of(path, name.as_str()),
                                        base_type: existing.clone(),
                                        ext_type: t.clone(),
                                    };
                                    return Err(err);
                                }
                            },
                            Some(_) => {},
                            None => {
                                let x = (name.clone(), Json::String(t.clone()));
                                proof {
                                    crate::json::lemma_entries_push(types@, x);
                                }
                                types.push(x);
                            },
                        }
                    },
                    _ => {},
                }
            },
            _ => {},
        }
        i += 1;
    }
    Ok(())
}

/// Checks that no two branches give one property different string types.
pub fn validate_allof_types(branches: &Vec<Json>, path: &str) -> (r: Result<(), ResolveError>)
    ensures
        match r {
            Ok(_) => type_check_spec(Seq::empty(), items_model(branches@), path@) is Ok,
            Err(e) => type_check_spec(Seq::empty(), items_model(branches@), path@) == Err::<
                Seq<(Seq<char>, JsonModel)>,
                ResolveErrorModel,
            >(e@),
        },
{
    let ghost b = items_model(branches@);
    proof {
        lemma_suffix_ends(b);
    }
    let mut types: Vec<(String, Json)> = Vec::new();
    assert(entries_model(types@) =~= Seq::empty());
    let mut i: usize = 0;
    while i < branches.len()
        invariant
            i <= branches.len(),
            b == items_model(branches@),
            type_check_spec(Seq::empty(), b, path@) == type_check_spec(
                entries_model(types@),
                b.subrange(i as int, b.len() as int),
                path@,
            ),
        decreases branches.len() - i,
    {
        proof {
            lemma_suffix_step(b, i as int);
        }
        match &branches[i] {
            Json::Object(bm) => {
                proof {
                    lemma_object_view(*bm);
                }
                match get_entry(bm, "properties") {
                    Some(Json::Object(props)) => {
                        proof {
                            lemma_object_view(*props);
                        }
                        match type_props(&mut types, props, path) {
                            Ok(_) => {},
                            Err(e) => {
                                return Err(e);
                            },
                        }
                    },
                    _ => {},
                }
            },
            _ => {},
        }
        i += 1;
    }
    Ok(())
}

fn takes_merged_exec(props: &Vec<(String, Json)>, name: &str, ann_key: &str) -> (r: bool)
    ensures
        r == takes_merged(entries_model(props@), name@, ann_key@),
{
    match get_entry(props, name) {
        Some(Json::Object(pm)) => {
            proof {
                lemma_object_view(*pm);
            }
            get_entry(pm, ann_key).is_none()
        },
        _ => false,
    }
}

/// Checks that no merged annotation weakens a property that `branch` lists in
/// its `required` array to `omit` or `optional`.
pub fn check_monotonicity(
    branch: &Json,
    merged: &Vec<(String, Json)>,
    ann_key: &str,
    operation: &str,
    path: &str,
) -> (r: Result<(), ResolveError>)
    ensures
        match r {
            Ok(_) => monotonicity_spec(branch@, entries_model(merged@), ann_key@, operation@, path@)
                is Ok,
            Err(e) => monotonicity_spec(branch@, entries_model(merged@), ann_key@, operation@, path@)
                == Err::<(), ResolveErrorModel>(e@),
        },
{
    let bm = match branch {
        Json::Object(bm) => bm,
        _ => {
            return Ok(());
        },
    };
    proof {
        lemma_object_view(*bm);
    }
    let props = match get_entry(bm, "properties") {
        Some(Json::Object(props)) => props,
        _ => {
            return Ok(());
        },
    };
    proof {
        lemma_object_view(*props);
    }
    let base_required = required_list(bm);
    let ghost m = entries_model(merged@);
    proof {
        lemma_suffix_ends(m);
    }
    let mut i: usize = 0;
    while i < merged.len()
        invariant
            i <= merged.len(),
            m == entries_model(merged@),
            monotonicity_spec(branch@, m, ann_key@, operation@, path@) == monotonic_entries_spec(
                m,
                entries_model(props@),
                names_model(base_required@),
                ann_key@,
                operation@,
                path@,
            ),
            monotonic_entries_spec(
                m,
                entries_model(props@),
                names_model(base_required@),
                ann_key@,
                operation@,
                path@,
            ) == monotonic_entries_spec(
                m.subrange(i as int, m.len() as int),
                entries_model(props@),
                names_model(base_required@),
                ann_key@,
                operation@,
                path@,
            ),
        decreases merged.len() - i,
    {
        proof {
            lemma_suffix_step(m, i as int);
        }
        let name = merged[i].0.as_str();
        if takes_merged_exec(props, name, ann_key) && contains_name(&base_required, name) {
            let pp = property_path_of(path, name);
            let vr = get_visibility_from_annotation(&merged[i].1, operation, pp.as_str());
            match vr {
                Err(e) => {
                    return Err(e);
                },
                Ok((v, _)) => {
                    if matches!(v, Visibility::Omit | Visibility::Optional) {
                        return Err(
                            ResolveError::MonotonicityViolation {
                                path: pp,
                                field: name.to_owned(),
                                base_status: String::from_str("required"),
                                attempted: v.as_str().to_owned(),
                            },
                        );
                    }
                },
            }
        }
        i += 1;
    }
    Ok(())
}

} // verus!
