//! Resolution of annotated schemas for one direction and operation.
use vstd::prelude::*;
use vstd::string::*;

use crate::error::{ResolveError, ResolveErrorModel};
use crate::json::{
    has_key, entries_model, get_entry, items_model, json_type_name, kind_name, lemma_entries_push,
    lemma_items_push, lemma_object_view, lemma_array_view, lemma_prefix_step, obj_get, obj_set,
    same_text, set_entry, str_or_empty, text_or_empty, Json, JsonModel,
};
use crate::allof::{
    check_monotonicity, collect_allof_annotations, collect_spec, monotonicity_spec,
    type_check_spec, validate_allof_types,
};
use crate::names::{
    add_name, names_json, names_model, names_to_json, remove_name, required_list, required_names,
    with_name, without_name,
};
use crate::strict::{close_additional_properties, close_spec};
use crate::text::{child_path, decimal, join_index, join_path};
use crate::types::{
    annotation_key_of, is_annotation, is_annotation_key, ResolveOptions, is_valid_schema_transition, parse_visibility, transition_model,
    valid_transition, Direction, SchemaTransitionInfo, TransitionModel, Visibility,
};

verus! {

/// A visibility with the transition that produced it, or the error met on the way.
pub type VisibilityModel = Result<(Visibility, Option<TransitionModel>), ResolveErrorModel>;

/// The model of a visibility result.
pub open spec fn visibility_result_model(
    r: Result<(Visibility, Option<SchemaTransitionInfo>), ResolveError>,
) -> VisibilityModel {
    match r {
        Ok((v, t)) => Ok((v, transition_model(t))),
        Err(e) => Err(e@),
    }
}

/// The message of a transition whose states are not two distinct visibilities.
pub open spec fn distinct_message(from: Seq<char>, to: Seq<char>) -> Seq<char> {
    "\"from\" ("@ + from + ") and \"to\" ("@ + to + ") must be distinct visibility values"@
}

/// The message of a transition without a description.
pub open spec fn missing_description_message() -> Seq<char> {
    "missing required field \"description\""@
}

/// The visibility a transition object gives: its `from` state. The fields are
/// read from its `transition` member where that is an object, else from the
/// object itself.
pub open spec fn transition_spec(obj: Seq<(Seq<char>, JsonModel)>, path: Seq<char>) -> VisibilityModel {
    let t = match obj_get(obj, "transition"@) {
        Some(JsonModel::Object(t)) => t,
        _ => obj,
    };
    let from = text_or_empty(obj_get(t, "from"@));
    let to = text_or_empty(obj_get(t, "to"@));
    let description = text_or_empty(obj_get(t, "description"@));
    if description.len() == 0 {
        Err(ResolveErrorModel::InvalidSchemaTransition { path, message: missing_description_message() })
    } else if !valid_transition(from, to) {
        Err(ResolveErrorModel::InvalidSchemaTransition { path, message: distinct_message(from, to) })
    } else {
        Ok((parse_visibility(from).unwrap(), Some(TransitionModel { from, to, description })))
    }
}

/// The visibility a visibility text names, or the error for an unknown one.
pub open spec fn text_visibility_spec(s: Seq<char>, path: Seq<char>) -> VisibilityModel {
    match parse_visibility(s) {
        Some(v) => Ok((v, None)),
        None => Err(ResolveErrorModel::UnknownVisibility { path, value: s }),
    }
}

/// The visibility an annotation value gives for the operation `op`.
pub open spec fn annotation_spec(ann: JsonModel, op: Seq<char>, path: Seq<char>) -> VisibilityModel {
    match ann {
        JsonModel::String(s) => text_visibility_spec(s, path),
        JsonModel::Object(m) => match obj_get(m, op) {
            Some(JsonModel::String(s)) => text_visibility_spec(s, path),
            Some(JsonModel::Object(o)) => transition_spec(o, child_path(path, op)),
            Some(other) => Err(
                ResolveErrorModel::InvalidAnnotationType {
                    path: child_path(path, op),
                    actual: kind_name(other),
                },
            ),
            None => match obj_get(m, "transition"@) {
                Some(JsonModel::Object(t)) => transition_spec(t, path),
                _ => Ok((Visibility::Include, None)),
            },
        },
        other => Err(ResolveErrorModel::InvalidAnnotationType { path, actual: kind_name(other) }),
    }
}

/// The visibility of a property for direction `d` and operation `op`:
/// `Include` where the property carries no annotation for `d`.
pub open spec fn visibility_spec(prop: JsonModel, d: Direction, op: Seq<char>, path: Seq<char>) -> VisibilityModel {
    match prop {
        JsonModel::Object(m) => match obj_get(m, annotation_key_of(d)) {
            Some(a) => annotation_spec(a, op, path),
            None => Ok((Visibility::Include, None)),
        },
        _ => Ok((Visibility::Include, None)),
    }
}

/// The visibility that `s` names, or `UnknownVisibility` at `path`.
pub fn parse_visibility_string(s: &str, path: &str) -> (r: Result<Visibility, ResolveError>)
    ensures
        match r {
            Ok(v) => parse_visibility(s@) == Some(v),
            Err(e) => parse_visibility(s@) is None && e@ == (ResolveErrorModel::UnknownVisibility {
                path: path@,
                value: s@,
            }),
        },
{
    match Visibility::parse(s) {
        Some(v) => Ok(v),
        None => Err(ResolveError::UnknownVisibility { path: path.to_owned(), value: s.to_owned() }),
    }
}

fn text_visibility(s: &str, path: &str) -> (r: Result<(Visibility, Option<SchemaTransitionInfo>), ResolveError>)
    ensures
        visibility_result_model(r) == text_visibility_spec(s@, path@),
{
    match parse_visibility_string(s, path) {
        Ok(v) => Ok((v, None)),
        Err(e) => Err(e),
    }
}

fn parse_transition_value(obj: &Vec<(String, Json)>, path: &str) -> (r: Result<
    (Visibility, Option<SchemaTransitionInfo>),
    ResolveError,
>)
    ensures
        visibility_result_model(r) == transition_spec(entries_model(obj@), path@),
{
    let t = match get_entry(obj, "transition") {
        Some(Json::Object(t)) => {
            proof {
                crate::json::lemma_object_view(*t);
            }
            t
        },
        _ => obj,
    };
    let from = str_or_empty(get_entry(t, "from"));
    let to = str_or_empty(get_entry(t, "to"));
    let description = str_or_empty(get_entry(t, "description"));
    if description.unicode_len() == 0 {
        return Err(
            ResolveError::InvalidSchemaTransition {
                path: path.to_owned(),
                message: String::from_str("missing required field \"description\""),
            },
        );
    }
    if !is_valid_schema_transition(from, to) {
        let mut message = String::from_str("\"from\" (");
        message.append(from);
        message.append(") and \"to\" (");
        message.append(to);
        message.append(") must be distinct visibility values");
        return Err(ResolveError::InvalidSchemaTransition { path: path.to_owned(), message });
    }
    let vis = match parse_visibility_string(from, path) {
        Ok(v) => v,
        Err(e) => return Err(e),
    };
    Ok(
        (
            vis,
            Some(
                SchemaTransitionInfo {
                    from: from.to_owned(),
                    to: to.to_owned(),
                    description: description.to_owned(),
                },
            ),
        ),
    )
}

/// The visibility (and transition, if any) that an annotation value gives for
/// `operation`.
pub(crate) fn get_visibility_from_annotation(annotation: &Json, operation: &str, path: &str) -> (r: Result<
    (Visibility, Option<SchemaTransitionInfo>),
    ResolveError,
>)
    ensures
        visibility_result_model(r) == annotation_spec(annotation@, operation@, path@),
{
    match annotation {
        Json::String(s) => text_visibility(s.as_str(), path),
        Json::Object(map) => {
            proof {
                crate::json::lemma_object_view(*map);
            }
            match get_entry(map, operation) {
                Some(Json::String(s)) => text_visibility(s.as_str(), path),
                Some(Json::Object(obj)) => {
                    proof {
                        crate::json::lemma_object_view(*obj);
                    }
                    let p = join_path(path, operation);
                    parse_transition_value(obj, p.as_str())
                },
                Some(other) => Err(
                    ResolveError::InvalidAnnotationType {
                        path: join_path(path, operation),
                        actual: json_type_name(other).to_owned(),
                    },
                ),
                None => match get_entry(map, "transition") {
                    Some(Json::Object(t)) => {
                        proof {
                            crate::json::lemma_object_view(*t);
                        }
                        parse_transition_value(t, path)
                    },
                    _ => Ok((Visibility::Include, None)),
                },
            }
        },
        other => Err(
            ResolveError::InvalidAnnotationType {
                path: path.to_owned(),
                actual: json_type_name(other).to_owned(),
            },
        ),
    }
}

/// The visibility of the property `prop` for `direction` and `operation`,
/// with the transition that produced it, if any.
pub fn get_visibility(prop: &Json, direction: Direction, operation: &str, path: &str) -> (r: Result<
    (Visibility, Option<SchemaTransitionInfo>),
    ResolveError,
>)
    ensures
        visibility_result_model(r) == visibility_spec(prop@, direction, operation@, path@),
{
    match prop {
        Json::Object(map) => {
            proof {
                crate::json::lemma_object_view(*map);
            }
            match get_entry(map, direction.annotation_key()) {
                Some(annotation) => get_visibility_from_annotation(annotation, operation, path),
                None => Ok((Visibility::Include, None)),
            }
        },
        _ => Ok((Visibility::Include, None)),
    }
}

/// A value with every `ucp_request` and `ucp_response` entry removed, at any depth.
pub open spec fn strip_spec(v: JsonModel) -> JsonModel
    decreases v, 1nat,
{
    match v {
        JsonModel::Object(m) => JsonModel::Object(strip_entries_spec(m)),
        JsonModel::Array(a) => JsonModel::Array(strip_items_spec(a)),
        _ => v,
    }
}

/// The entries of `m` without annotation keys, each value stripped.
pub open spec fn strip_entries_spec(m: Seq<(Seq<char>, JsonModel)>) -> Seq<(Seq<char>, JsonModel)>
    decreases m, 0nat,
{
    if m.len() == 0 {
        Seq::empty()
    } else {
        let p = strip_entries_spec(m.subrange(0, m.len() - 1));
        let e = m[m.len() - 1];
        if is_annotation_key(e.0) {
            p
        } else {
            p.push((e.0, strip_spec(e.1)))
        }
    }
}

/// The items of `a`, each stripped.
pub open spec fn strip_items_spec(a: Seq<JsonModel>) -> Seq<JsonModel>
    decreases a, 0nat,
{
    if a.len() == 0 {
        Seq::empty()
    } else {
        strip_items_spec(a.subrange(0, a.len() - 1)).push(strip_spec(a[a.len() - 1]))
    }
}

/// Removes every `ucp_request` and `ucp_response` entry from `schema`, at any depth.
pub fn strip_annotations(schema: &Json) -> (r: Json)
    ensures
        r@ == strip_spec(schema@),
{
    strip_annotations_recursive(schema)
}

fn strip_annotations_recursive(value: &Json) -> (r: Json)
    ensures
        r@ == strip_spec(value@),
    decreases value,
{
    match value {
        Json::Object(entries) => {
            let out = strip_entries(entries);
            proof {
                lemma_object_view(*entries);
                lemma_object_view(out);
            }
            Json::Object(out)
        },
        Json::Array(items) => {
            let out = strip_items(items);
            proof {
                lemma_array_view(*items);
                lemma_array_view(out);
            }
            Json::Array(out)
        },
        other => other.deep_copy(),
    }
}

fn strip_entries(entries: &Vec<(String, Json)>) -> (r: Vec<(String, Json)>)
    ensures
        entries_model(r@) == strip_entries_spec(entries_model(entries@)),
    decreases entries,
{
    let ghost m = entries_model(entries@);
    let mut out: Vec<(String, Json)> = Vec::new();
    let mut i: usize = 0;
    while i < entries.len()
        invariant
            i <= entries.len(),
            m == entries_model(entries@),
            entries_model(out@) == strip_entries_spec(m.subrange(0, i as int)),
        decreases entries.len() - i,
    {
        proof {
            lemma_prefix_step(m, i as int);
            vstd::std_specs::vec::axiom_vec_index_decreases(*entries, i as int);
        }
        if !is_annotation(entries[i].0.as_str()) {
            let v = strip_annotations_recursive(&entries[i].1);
            let x = (entries[i].0.clone(), v);
            proof {
                lemma_entries_push(out@, x);
            }
            out.push(x);
        }
        i += 1;
    }
    assert(m.subrange(0, m.len() as int) =~= m);
    out
}

fn strip_items(items: &Vec<Json>) -> (r: Vec<Json>)
    ensures
        items_model(r@) == strip_items_spec(items_model(items@)),
    decreases items,
{
    let ghost m = items_model(items@);
    let mut out: Vec<Json> = Vec::new();
    let mut i: usize = 0;
    while i < items.len()
        invariant
            i <= items.len(),
            m == items_model(items@),
            items_model(out@) == strip_items_spec(m.subrange(0, i as int)),
        decreases items.len() - i,
    {
        proof {
            lemma_prefix_step(m, i as int);
            vstd::std_specs::vec::axiom_vec_index_decreases(*items, i as int);
        }
        let v = strip_annotations_recursive(&items[i]);
        proof {
            lemma_items_push(out@, v);
        }
        out.push(v);
        i += 1;
    }
    assert(m.subrange(0, m.len() as int) =~= m);
    out
}

/// The `x-ucp-schema-transition` record of a transition.
pub open spec fn transition_record(t: TransitionModel) -> JsonModel {
    JsonModel::Object(
        seq![
            ("from"@, JsonModel::String(t.from)),
            ("to"@, JsonModel::String(t.to)),
            ("description"@, JsonModel::String(t.description)),
        ],
    )
}

/// An object value with the transition's record under `x-ucp-schema-transition`,
/// and `deprecated: true` where the transition leads to `omit`. Other values,
/// and values without a transition, stay as they are.
pub open spec fn with_transition_spec(v: JsonModel, t: Option<TransitionModel>) -> JsonModel {
    match v {
        JsonModel::Object(m) => match t {
            Some(info) => {
                let m1 = obj_set(m, "x-ucp-schema-transition"@, transition_record(info));
                if info.to == "omit"@ {
                    JsonModel::Object(obj_set(m1, "deprecated"@, JsonModel::Bool(true)))
                } else {
                    JsonModel::Object(m1)
                }
            },
            None => v,
        },
        _ => v,
    }
}

fn transition_json(info: &SchemaTransitionInfo) -> (r: Json)
    ensures
        r@ == transition_record(info@),
{
    let mut e: Vec<(String, Json)> = Vec::new();
    e.push((String::from_str("from"), Json::String(info.from.clone())));
    e.push((String::from_str("to"), Json::String(info.to.clone())));
    e.push((String::from_str("description"), Json::String(info.description.clone())));
    proof {
        lemma_object_view(e);
        assert(entries_model(e@) =~= transition_record(info@)->Object_0);
    }
    Json::Object(e)
}

fn apply_transition_metadata(value: Json, transition: &Option<SchemaTransitionInfo>) -> (r: Json)
    ensures
        r@ == with_transition_spec(value@, transition_model(*transition)),
{
    match value {
        Json::Object(map) => {
            proof {
                lemma_object_view(map);
            }
            match transition {
                Some(info) => {
                    let mut map = map;
                    set_entry(&mut map, "x-ucp-schema-transition", transition_json(info));
                    if same_text(info.to.as_str(), "omit") {
                        set_entry(&mut map, "deprecated", Json::Bool(true));
                    }
                    proof {
                        lemma_object_view(map);
                    }
                    Json::Object(map)
                },
                None => Json::Object(map),
            }
        },
        other => other,
    }
}

/// Resolution of `schema` for direction `d` and operation `op`: the schema
/// rewritten from the root, then closed where `strict` is set.
pub open spec fn resolve_spec(schema: JsonModel, d: Direction, op: Seq<char>, strict: bool) -> Result<
    JsonModel,
    ResolveErrorModel,
> {
    match resolve_value_spec(schema, d, op, Seq::empty()) {
        Err(e) => Err(e),
        Ok(r) => Ok(
            if strict {
                close_spec(r, false)
            } else {
                r
            },
        ),
    }
}

/// Resolves `schema` for `options.direction` and `options.operation`: the
/// result is a plain JSON Schema without annotations, closed to unknown
/// properties where `options.strict` is set; or the first error met.
pub fn resolve(schema: &Json, options: &ResolveOptions) -> (r: Result<Json, ResolveError>)
    ensures
        value_result(r) == resolve_spec(
            schema@,
            options.direction,
            options.operation@,
            options.strict,
        ),
{
    let root = "";
    proof {
        reveal_strlit("");
        assert(root@ =~= Seq::<char>::empty());
    }
    let resolved = match resolve_value(schema, options, root) {
        Ok(v) => v,
        Err(e) => {
            return Err(e);
        },
    };
    if options.strict {
        Ok(close_additional_properties(&resolved))
    } else {
        Ok(resolved)
    }
}

/// The entries of an object model.
pub type EntriesModel = Seq<(Seq<char>, JsonModel)>;

/// The names of a `required` array.
pub type NamesModel = Seq<Seq<char>>;

/// The model of a resolution result.
pub open spec fn value_result(r: Result<Json, ResolveError>) -> Result<JsonModel, ResolveErrorModel> {
    match r {
        Ok(j) => Ok(j@),
        Err(e) => Err(e@),
    }
}

/// The model of a result that leaves its output in `acc` and `req`.
pub open spec fn fold_result(
    r: Result<(), ResolveError>,
    acc: Seq<(String, Json)>,
    req: Seq<String>,
) -> Result<(EntriesModel, NamesModel), ResolveErrorModel> {
    match r {
        Ok(_) => Ok((entries_model(acc), names_model(req))),
        Err(e) => Err(e@),
    }
}

/// The model of a result that leaves part of its output in `req`.
pub open spec fn pair_result(r: Result<Json, ResolveError>, req: Seq<String>) -> Result<
    (JsonModel, NamesModel),
    ResolveErrorModel,
> {
    match r {
        Ok(j) => Ok((j@, names_model(req))),
        Err(e) => Err(e@),
    }
}

/// The model of a result that leaves its output in `acc`.
pub open spec fn items_result(r: Result<(), ResolveError>, acc: Seq<Json>) -> Result<
    Seq<JsonModel>,
    ResolveErrorModel,
> {
    match r {
        Ok(_) => Ok(items_model(acc)),
        Err(e) => Err(e@),
    }
}

/// The model of a result that leaves its output in `acc`.
pub open spec fn entries_result(r: Result<(), ResolveError>, acc: Seq<(String, Json)>) -> Result<
    EntriesModel,
    ResolveErrorModel,
> {
    match r {
        Ok(_) => Ok(entries_model(acc)),
        Err(e) => Err(e@),
    }
}

/// The visibility of the property `name`, whose value is `pv`: from the
/// annotation that an `allOf` merge handed down in `inh` where the property is
/// an object without an annotation of its own, else from the property.
pub open spec fn effective_visibility_spec(
    pv: JsonModel,
    d: Direction,
    op: Seq<char>,
    path: Seq<char>,
    inh: EntriesModel,
    name: Seq<char>,
) -> VisibilityModel {
    match pv {
        JsonModel::Object(pm) => if !has_key(pm, annotation_key_of(d)) && has_key(inh, name) {
            annotation_spec(obj_get(inh, name).unwrap(), op, path)
        } else {
            visibility_spec(pv, d, op, path)
        },
        _ => visibility_spec(pv, d, op, path),
    }
}

/// The `required` names after a kept property of visibility `vis`.
pub open spec fn required_after(vis: Visibility, req: NamesModel, name: Seq<char>) -> NamesModel {
    match vis {
        Visibility::Required => with_name(req, name),
        Visibility::Optional => without_name(req, name),
        _ => req,
    }
}

/// Resolution of a value at `path`: objects are rewritten, arrays resolved item
/// by item, anything else kept.
pub open spec fn resolve_value_spec(v: JsonModel, d: Direction, op: Seq<char>, path: Seq<char>) -> Result<
    JsonModel,
    ResolveErrorModel,
>
    decreases v, 2nat,
{
    match v {
        JsonModel::Object(m) => resolve_object_spec(m, d, op, path, Seq::empty()),
        JsonModel::Array(a) => match resolve_items_spec(a, 0, d, op, path, Seq::empty()) {
            Ok(r) => Ok(JsonModel::Array(r)),
            Err(e) => Err(e),
        },
        _ => Ok(v),
    }
}

/// The items of `a` from index `i` on, resolved in order and appended to `acc`.
pub open spec fn resolve_items_spec(
    a: Seq<JsonModel>,
    i: nat,
    d: Direction,
    op: Seq<char>,
    path: Seq<char>,
    acc: Seq<JsonModel>,
) -> Result<Seq<JsonModel>, ResolveErrorModel>
    decreases a, a.len() - i,
{
    if i >= a.len() {
        Ok(acc)
    } else {
        match resolve_value_spec(a[i as int], d, op, child_path(path, decimal(i))) {
            Err(e) => Err(e),
            Ok(r) => resolve_items_spec(a, i + 1, d, op, path, acc.push(r)),
        }
    }
}

/// Resolution of an object: its entries in order, with its `required` array
/// emitted where it is non-empty or the object had one: in the place of the
/// object's own `required` entry, else last.
pub open spec fn resolve_object_spec(
    m: EntriesModel,
    d: Direction,
    op: Seq<char>,
    path: Seq<char>,
    inh: EntriesModel,
) -> Result<JsonModel, ResolveErrorModel>
    decreases m, m.len() + 1,
{
    match resolve_entries_spec(m, 0, d, op, path, inh, Seq::empty(), required_names(m)) {
        Err(e) => Err(e),
        Ok((acc, req)) => Ok(
            JsonModel::Object(
                if req.len() > 0 || has_key(m, "required"@) {
                    obj_set(acc, "required"@, names_json(req))
                } else {
                    acc
                },
            ),
        ),
    }
}

/// The entries of `m` from index `i` on, resolved in order into `acc`, with
/// the `required` names `req` updated on the way.
pub open spec fn resolve_entries_spec(
    m: EntriesModel,
    i: nat,
    d: Direction,
    op: Seq<char>,
    path: Seq<char>,
    inh: EntriesModel,
    acc: EntriesModel,
    req: NamesModel,
) -> Result<(EntriesModel, NamesModel), ResolveErrorModel>
    decreases m, m.len() - i,
{
    if i >= m.len() {
        Ok((acc, req))
    } else {
        match resolve_entry_spec(m[i as int].0, m[i as int].1, d, op, path, inh, acc, req) {
            Err(e) => Err(e),
            Ok((acc2, req2)) => resolve_entries_spec(m, i + 1, d, op, path, inh, acc2, req2),
        }
    }
}

/// One entry of an object: annotations are left out, `required` keeps its
/// place (its array is filled in once the object is done),
/// `properties` is resolved against the `required` names, any other member
/// by its own rule.
pub open spec fn resolve_entry_spec(
    k: Seq<char>,
    x: JsonModel,
    d: Direction,
    op: Seq<char>,
    path: Seq<char>,
    inh: EntriesModel,
    acc: EntriesModel,
    req: NamesModel,
) -> Result<(EntriesModel, NamesModel), ResolveErrorModel>
    decreases x, 4nat,
{
    let cp = child_path(path, k);
    if is_annotation_key(k) {
        Ok((acc, req))
    } else if k == "required"@ {
        Ok((acc.push((k, JsonModel::Null)), req))
    } else if k == "properties"@ {
        match resolve_properties_spec(x, d, op, cp, inh, req) {
            Err(e) => Err(e),
            Ok((pv, req2)) => Ok((acc.push((k, pv)), req2)),
        }
    } else {
        match resolve_member_spec(k, x, d, op, cp) {
            Err(e) => Err(e),
            Ok(r) => Ok((acc.push((k, r)), req)),
        }
    }
}

/// A member other than `properties`: definitions are resolved one by one,
/// `allOf` with annotation propagation, `anyOf`/`oneOf` only when they are
/// arrays, `additionalProperties` only when it is an object (other shapes are
/// kept, stripped of annotations), and anything else as a value.
pub open spec fn resolve_member_spec(
    k: Seq<char>,
    x: JsonModel,
    d: Direction,
    op: Seq<char>,
    path: Seq<char>,
) -> Result<JsonModel, ResolveErrorModel>
    decreases x, 3nat,
{
    if k == "$defs"@ || k == "definitions"@ {
        resolve_defs_spec(x, d, op, path)
    } else if k == "allOf"@ {
        resolve_allof_spec(x, d, op, path)
    } else if (k == "anyOf"@ || k == "oneOf"@) && !(x is Array) {
        Ok(strip_spec(x))
    } else if k == "additionalProperties"@ && !(x is Object) {
        Ok(strip_spec(x))
    } else {
        resolve_value_spec(x, d, op, path)
    }
}

/// A `properties` member: each property by its visibility; anything but an
/// object is kept, stripped of annotations.
pub open spec fn resolve_properties_spec(
    x: JsonModel,
    d: Direction,
    op: Seq<char>,
    path: Seq<char>,
    inh: EntriesModel,
    req: NamesModel,
) -> Result<(JsonModel, NamesModel), ResolveErrorModel>
    decreases x, 2nat,
{
    match x {
        JsonModel::Object(p) => match resolve_prop_entries_spec(p, 0, d, op, path, inh, Seq::empty(), req) {
            Err(e) => Err(e),
            Ok((acc, req2)) => Ok((JsonModel::Object(acc), req2)),
        },
        _ => Ok((strip_spec(x), req)),
    }
}

/// The properties of `p` from index `i` on, in order.
pub open spec fn resolve_prop_entries_spec(
    p: EntriesModel,
    i: nat,
    d: Direction,
    op: Seq<char>,
    path: Seq<char>,
    inh: EntriesModel,
    acc: EntriesModel,
    req: NamesModel,
) -> Result<(EntriesModel, NamesModel), ResolveErrorModel>
    decreases p, p.len() - i,
{
    if i >= p.len() {
        Ok((acc, req))
    } else {
        match resolve_prop_spec(p[i as int].0, p[i as int].1, d, op, path, inh, acc, req) {
            Err(e) => Err(e),
            Ok((acc2, req2)) => resolve_prop_entries_spec(p, i + 1, d, op, path, inh, acc2, req2),
        }
    }
}

/// One property: omitted ones, and ones named like an annotation key, leave
/// `properties` and `required`; kept ones are
/// resolved, stripped of annotations, given their transition record, and
/// listed in or removed from `required` as their visibility says.
pub open spec fn resolve_prop_spec(
    name: Seq<char>,
    pv: JsonModel,
    d: Direction,
    op: Seq<char>,
    path: Seq<char>,
    inh: EntriesModel,
    acc: EntriesModel,
    req: NamesModel,
) -> Result<(EntriesModel, NamesModel), ResolveErrorModel>
    decreases pv, 3nat,
{
    let pp = child_path(path, name);
    if is_annotation_key(name) {
        Ok((acc, without_name(req, name)))
    } else {
    match effective_visibility_spec(pv, d, op, pp, inh, name) {
        Err(e) => Err(e),
        Ok((vis, tr)) => if vis == Visibility::Omit {
            Ok((acc, without_name(req, name)))
        } else {
            match resolve_value_spec(pv, d, op, pp) {
                Err(e) => Err(e),
                Ok(r) => Ok(
                    (
                        acc.push((name, with_transition_spec(strip_spec(r), tr))),
                        required_after(vis, req, name),
                    ),
                ),
            }
        },
    }
    }
}

/// A definitions member: each definition resolved as a value, but for those
/// named like an annotation key, which are left out; anything but an object
/// is kept, stripped of annotations.
pub open spec fn resolve_defs_spec(x: JsonModel, d: Direction, op: Seq<char>, path: Seq<char>) -> Result<
    JsonModel,
    ResolveErrorModel,
>
    decreases x, 2nat,
{
    match x {
        JsonModel::Object(p) => match resolve_def_entries_spec(p, 0, d, op, path, Seq::empty()) {
            Err(e) => Err(e),
            Ok(acc) => Ok(JsonModel::Object(acc)),
        },
        _ => Ok(strip_spec(x)),
    }
}

/// The definitions of `p` from index `i` on, in order.
pub open spec fn resolve_def_entries_spec(
    p: EntriesModel,
    i: nat,
    d: Direction,
    op: Seq<char>,
    path: Seq<char>,
    acc: EntriesModel,
) -> Result<EntriesModel, ResolveErrorModel>
    decreases p, p.len() - i,
{
    if i >= p.len() {
        Ok(acc)
    } else if is_annotation_key(p[i as int].0) {
        resolve_def_entries_spec(p, i + 1, d, op, path, acc)
    } else {
        match resolve_value_spec(p[i as int].1, d, op, child_path(path, p[i as int].0)) {
            Err(e) => Err(e),
            Ok(r) => resolve_def_entries_spec(p, i + 1, d, op, path, acc.push((p[i as int].0, r))),
        }
    }
}

/// An `allOf` member: the annotations of all branches are merged (the last
/// wins), the branches' property types checked against each other, and each
/// branch checked for monotonicity and resolved with the merged annotations
/// handed down to its properties. Anything but an array is kept, stripped of
/// annotations.
pub open spec fn resolve_allof_spec(x: JsonModel, d: Direction, op: Seq<char>, path: Seq<char>) -> Result<
    JsonModel,
    ResolveErrorModel,
>
    decreases x, 2nat,
{
    match x {
        JsonModel::Array(a) => {
            let merged = collect_spec(a, annotation_key_of(d));
            match type_check_spec(Seq::empty(), a, path) {
                Err(e) => Err(e),
                Ok(_) => match resolve_branches_spec(a, 0, d, op, path, merged, Seq::empty()) {
                    Err(e) => Err(e),
                    Ok(r) => Ok(JsonModel::Array(r)),
                },
            }
        },
        _ => Ok(strip_spec(x)),
    }
}

/// The branches of `a` from index `i` on, in order.
pub open spec fn resolve_branches_spec(
    a: Seq<JsonModel>,
    i: nat,
    d: Direction,
    op: Seq<char>,
    path: Seq<char>,
    merged: EntriesModel,
    acc: Seq<JsonModel>,
) -> Result<Seq<JsonModel>, ResolveErrorModel>
    decreases a, a.len() - i,
{
    if i >= a.len() {
        Ok(acc)
    } else {
        let ip = child_path(path, decimal(i));
        match monotonicity_spec(a[i as int], merged, annotation_key_of(d), op, ip) {
            Err(e) => Err(e),
            Ok(_) => match resolve_branch_spec(a[i as int], d, op, ip, merged) {
                Err(e) => Err(e),
                Ok(r) => resolve_branches_spec(a, i + 1, d, op, path, merged, acc.push(r)),
            },
        }
    }
}

/// One `allOf` branch, with the merged annotations handed down to its properties.
pub open spec fn resolve_branch_spec(
    b: JsonModel,
    d: Direction,
    op: Seq<char>,
    path: Seq<char>,
    merged: EntriesModel,
) -> Result<JsonModel, ResolveErrorModel>
    decreases b, 3nat,
{
    match b {
        JsonModel::Object(bm) => resolve_object_spec(bm, d, op, path, merged),
        _ => resolve_value_spec(b, d, op, path),
    }
}

fn resolve_value(value: &Json, options: &ResolveOptions, path: &str) -> (r: Result<Json, ResolveError>)
    ensures
        value_result(r) == resolve_value_spec(value@, options.direction, options.operation@, path@),
    decreases value, 2nat,
{
    match value {
        Json::Object(map) => {
            proof {
                lemma_object_view(*map);
            }
            let none: Vec<(String, Json)> = Vec::new();
            assert(entries_model(none@) =~= Seq::empty());
            resolve_object(map, options, path, &none)
        },
        Json::Array(arr) => {
            proof {
                lemma_array_view(*arr);
            }
            let mut out: Vec<Json> = Vec::new();
            assert(items_model(out@) =~= Seq::empty());
            match resolve_array(arr, options, path, &mut out) {
                Ok(_) => {
                    proof {
                        lemma_array_view(out);
                    }
                    Ok(Json::Array(out))
                },
                Err(e) => Err(e),
            }
        },
        other => Ok(other.deep_copy()),
    }
}

fn resolve_array(arr: &Vec<Json>, options: &ResolveOptions, path: &str, out: &mut Vec<Json>) -> (r: Result<(), ResolveError>)
    ensures
        items_result(r, final(out)@) == resolve_items_spec(
            items_model(arr@),
            0,
            options.direction,
            options.operation@,
            path@,
            items_model(old(out)@),
        ),
    decreases arr, 0nat,
{
    let ghost a = items_model(arr@);
    let ghost goal = resolve_items_spec(a, 0, options.direction, options.operation@, path@, items_model(out@));
    let mut i: usize = 0;
    while i < arr.len()
        invariant
            i <= arr.len(),
            a == items_model(arr@),
            goal == resolve_items_spec(a, 0, options.direction, options.operation@, path@, items_model(old(out)@)),
            goal == resolve_items_spec(a, i as nat, options.direction, options.operation@, path@, items_model(out@)),
        decreases arr.len() - i,
    {
        proof {
            vstd::std_specs::vec::axiom_vec_index_decreases(*arr, i as int);
        }
        let item_path = join_index(path, i);
        match resolve_value(&arr[i], options, item_path.as_str()) {
            Ok(v) => {
                proof {
                    crate::json::lemma_items_push(out@, v);
                }
                out.push(v);
            },
            Err(e) => {
                return Err(e);
            },
        }
        i += 1;
    }
    Ok(())
}

fn resolve_object(
    map: &Vec<(String, Json)>,
    options: &ResolveOptions,
    path: &str,
    inherited: &Vec<(String, Json)>,
) -> (r: Result<Json, ResolveError>)
    ensures
        value_result(r) == resolve_object_spec(
            entries_model(map@),
            options.direction,
            options.operation@,
            path@,
            entries_model(inherited@),
        ),
    decreases map, map.len() + 1,
{
    let ghost m = entries_model(map@);
    let mut result: Vec<(String, Json)> = Vec::new();
    let mut required = required_list(map);
    assert(entries_model(result@) =~= Seq::empty());
    let ghost goal = resolve_entries_spec(
        m,
        0,
        options.direction,
        options.operation@,
        path@,
        entries_model(inherited@),
        Seq::empty(),
        required_names(m),
    );
    let mut i: usize = 0;
    while i < map.len()
        invariant
            i <= map.len(),
            m == entries_model(map@),
            goal == resolve_entries_spec(
                m,
                i as nat,
                options.direction,
                options.operation@,
                path@,
                entries_model(inherited@),
                entries_model(result@),
                names_model(required@),
            ),
            goal == resolve_entries_spec(
                m,
                0,
                options.direction,
                options.operation@,
                path@,
                entries_model(inherited@),
                Seq::empty(),
                required_names(m),
            ),
        decreases map.len() - i,
    {
        proof {
            vstd::std_specs::vec::axiom_vec_index_decreases(*map, i as int);
        }
        match resolve_entry(
            map[i].0.as_str(),
            &map[i].1,
            options,
            path,
            inherited,
            &mut result,
            &mut required,
        ) {
            Ok(_) => {},
            Err(e) => {
                return Err(e);
            },
        }
        i += 1;
    }
    if required.len() > 0 || get_entry(map, "required").is_some() {
        let names = names_to_json(&required);
        set_entry(&mut result, "required", names);
    }
    proof {
        lemma_object_view(result);
    }
    Ok(Json::Object(result))
}

fn resolve_entry(
    key: &str,
    value: &Json,
    options: &ResolveOptions,
    path: &str,
    inherited: &Vec<(String, Json)>,
    result: &mut Vec<(String, Json)>,
    required: &mut Vec<String>,
) -> (r: Result<(), ResolveError>)
    ensures
        fold_result(r, final(result)@, final(required)@) == resolve_entry_spec(
            key@,
            value@,
            options.direction,
            options.operation@,
            path@,
            entries_model(inherited@),
            entries_model(old(result)@),
            names_model(old(required)@),
        ),
    decreases value, 4nat,
{
    if is_annotation(key) {
        return Ok(());
    }
    if same_text(key, "required") {
        let x = (key.to_owned(), Json::Null);
        proof {
            lemma_entries_push(result@, x);
        }
        result.push(x);
        return Ok(());
    }
    let child_path = join_path(path, key);
    if same_text(key, "properties") {
        match resolve_properties(value, options, child_path.as_str(), inherited, required) {
            Ok(v) => {
                let x = (key.to_owned(), v);
                proof {
                    lemma_entries_push(result@, x);
                }
                result.push(x);
                Ok(())
            },
            Err(e) => Err(e),
        }
    } else {
        match resolve_member(key, value, options, child_path.as_str()) {
            Ok(v) => {
                let x = (key.to_owned(), v);
                proof {
                    lemma_entries_push(result@, x);
                }
                result.push(x);
                Ok(())
            },
            Err(e) => Err(e),
        }
    }
}

fn resolve_member(key: &str, value: &Json, options: &ResolveOptions, path: &str) -> (r: Result<
    Json,
    ResolveError,
>)
    ensures
        value_result(r) == resolve_member_spec(key@, value@, options.direction, options.operation@, path@),
    decreases value, 3nat,
{
    if same_text(key, "$defs") || same_text(key, "definitions") {
        resolve_defs(value, options, path)
    } else if same_text(key, "allOf") {
        resolve_allof(value, options, path)
    } else if (same_text(key, "anyOf") || same_text(key, "oneOf")) && !matches!(value, Json::Array(_)) {
        Ok(strip_annotations(value))
    } else if same_text(key, "additionalProperties") && !matches!(value, Json::Object(_)) {
        Ok(strip_annotations(value))
    } else {
        resolve_value(value, options, path)
    }
}

fn resolve_properties(
    value: &Json,
    options: &ResolveOptions,
    path: &str,
    inherited: &Vec<(String, Json)>,
    required: &mut Vec<String>,
) -> (r: Result<Json, ResolveError>)
    ensures
        pair_result(r, final(required)@) == resolve_properties_spec(
            value@,
            options.direction,
            options.operation@,
            path@,
            entries_model(inherited@),
            names_model(old(required)@),
        ),
    decreases value, 2nat,
{
    match value {
        Json::Object(props) => {
            proof {
                lemma_object_view(*props);
            }
            let mut out: Vec<(String, Json)> = Vec::new();
            assert(entries_model(out@) =~= Seq::empty());
            match resolve_prop_entries(props, options, path, inherited, &mut out, required) {
                Ok(_) => {
                    proof {
                        lemma_object_view(out);
                    }
                    Ok(Json::Object(out))
                },
                Err(e) => Err(e),
            }
        },
        other => Ok(strip_annotations(other)),
    }
}

fn resolve_prop_entries(
    props: &Vec<(String, Json)>,
    options: &ResolveOptions,
    path: &str,
    inherited: &Vec<(String, Json)>,
    out: &mut Vec<(String, Json)>,
    required: &mut Vec<String>,
) -> (r: Result<(), ResolveError>)
    ensures
        fold_result(r, final(out)@, final(required)@) == resolve_prop_entries_spec(
            entries_model(props@),
            0,
            options.direction,
            options.operation@,
            path@,
            entries_model(inherited@),
            entries_model(old(out)@),
            names_model(old(required)@),
        ),
    decreases props, 0nat,
{
    let ghost p = entries_model(props@);
    let ghost goal = resolve_prop_entries_spec(
        p,
        0,
        options.direction,
        options.operation@,
        path@,
        entries_model(inherited@),
        entries_model(out@),
        names_model(required@),
    );
    let mut i: usize = 0;
    while i < props.len()
        invariant
            i <= props.len(),
            p == entries_model(props@),
            goal == resolve_prop_entries_spec(
                p,
                0,
                options.direction,
                options.operation@,
                path@,
                entries_model(inherited@),
                entries_model(old(out)@),
                names_model(old(required)@),
            ),
            goal == resolve_prop_entries_spec(
                p,
                i as nat,
                options.direction,
                options.operation@,
                path@,
                entries_model(inherited@),
                entries_model(out@),
                names_model(required@),
            ),
        decreases props.len() - i,
    {
        proof {
            vstd::std_specs::vec::axiom_vec_index_decreases(*props, i as int);
        }
        match resolve_prop(props[i].0.as_str(), &props[i].1, options, path, inherited, out, required) {
            Ok(_) => {},
            Err(e) => {
                return Err(e);
            },
        }
        i += 1;
    }
    Ok(())
}

fn effective_visibility(
    prop_value: &Json,
    options: &ResolveOptions,
    path: &str,
    inherited: &Vec<(String, Json)>,
    name: &str,
) -> (r: Result<(Visibility, Option<SchemaTransitionInfo>), ResolveError>)
    ensures
        visibility_result_model(r) == effective_visibility_spec(
            prop_value@,
            options.direction,
            options.operation@,
            path@,
            entries_model(inherited@),
            name@,
        ),
{
    let handed_down = match prop_value {
        Json::Object(pm) => {
            proof {
                lemma_object_view(*pm);
            }
            if get_entry(pm, options.direction.annotation_key()).is_none() {
                get_entry(inherited, name)
            } else {
                None
            }
        },
        _ => None,
    };
    match handed_down {
        Some(annotation) => get_visibility_from_annotation(annotation, options.operation.as_str(), path),
        None => get_visibility(prop_value, options.direction, options.operation.as_str(), path),
    }
}

fn resolve_prop(
    name: &str,
    prop_value: &Json,
    options: &ResolveOptions,
    path: &str,
    inherited: &Vec<(String, Json)>,
    out: &mut Vec<(String, Json)>,
    required: &mut Vec<String>,
) -> (r: Result<(), ResolveError>)
    ensures
        fold_result(r, final(out)@, final(required)@) == resolve_prop_spec(
            name@,
            prop_value@,
            options.direction,
            options.operation@,
            path@,
            entries_model(inherited@),
            entries_model(old(out)@),
            names_model(old(required)@),
        ),
    decreases prop_value, 3nat,
{
    if is_annotation(name) {
        remove_name(required, name);
        return Ok(());
    }
    let prop_path = join_path(path, name);
    let (visibility, transition) = match effective_visibility(
        prop_value,
        options,
        prop_path.as_str(),
        inherited,
        name,
    ) {
        Ok(vt) => vt,
        Err(e) => {
            return Err(e);
        },
    };
    if visibility == Visibility::Omit {
        remove_name(required, name);
        return Ok(());
    }
    let resolved = match resolve_value(prop_value, options, prop_path.as_str()) {
        Ok(v) => v,
        Err(e) => {
            return Err(e);
        },
    };
    let stripped = strip_annotations(&resolved);
    let kept = apply_transition_metadata(stripped, &transition);
    let x = (name.to_owned(), kept);
    proof {
        lemma_entries_push(out@, x);
    }
    out.push(x);
    match visibility {
        Visibility::Required => add_name(required, name),
        Visibility::Optional => remove_name(required, name),
        _ => {},
    }
    Ok(())
}

fn resolve_defs(value: &Json, options: &ResolveOptions, path: &str) -> (r: Result<Json, ResolveError>)
    ensures
        value_result(r) == resolve_defs_spec(value@, options.direction, options.operation@, path@),
    decreases value, 2nat,
{
    match value {
        Json::Object(defs) => {
            proof {
                lemma_object_view(*defs);
            }
            let mut out: Vec<(String, Json)> = Vec::new();
            assert(entries_model(out@) =~= Seq::empty());
            match resolve_def_entries(defs, options, path, &mut out) {
                Ok(_) => {
                    proof {
                        lemma_object_view(out);
                    }
                    Ok(Json::Object(out))
                },
                Err(e) => Err(e),
            }
        },
        other => Ok(strip_annotations(other)),
    }
}

fn resolve_def_entries(
    defs: &Vec<(String, Json)>,
    options: &ResolveOptions,
    path: &str,
    out: &mut Vec<(String, Json)>,
) -> (r: Result<(), ResolveError>)
    ensures
        entries_result(r, final(out)@) == resolve_def_entries_spec(
            entries_model(defs@),
            0,
            options.direction,
            options.operation@,
            path@,
            entries_model(old(out)@),
        ),
    decreases defs, 0nat,
{
    let ghost p = entries_model(defs@);
    let ghost goal = resolve_def_entries_spec(p, 0, options.direction, options.operation@, path@, entries_model(out@));
    let mut i: usize = 0;
    while i < defs.len()
        invariant
            i <= defs.len(),
            p == entries_model(defs@),
            goal == resolve_def_entries_spec(p, 0, options.direction, options.operation@, path@, entries_model(old(out)@)),
            goal == resolve_def_entries_spec(p, i as nat, options.direction, options.operation@, path@, entries_model(out@)),
        decreases defs.len() - i,
    {
        proof {
            vstd::std_specs::vec::axiom_vec_index_decreases(*defs, i as int);
        }
        if is_annotation(defs[i].0.as_str()) {
            i += 1;
            continue;
        }
        let def_path = join_path(path, defs[i].0.as_str());
        match resolve_value(&defs[i].1, options, def_path.as_str()) {
            Ok(v) => {
                let x = (defs[i].0.clone(), v);
                proof {
                    lemma_entries_push(out@, x);
                }
                out.push(x);
            },
            Err(e) => {
                return Err(e);
            },
        }
        i += 1;
    }
    Ok(())
}

fn resolve_allof(value: &Json, options: &ResolveOptions, path: &str) -> (r: Result<Json, ResolveError>)
    ensures
        value_result(r) == resolve_allof_spec(value@, options.direction, options.operation@, path@),
    decreases value, 2nat,
{
    match value {
        Json::Array(arr) => {
            proof {
                lemma_array_view(*arr);
            }
            let ann_key = options.direction.annotation_key();
            let merged = collect_allof_annotations(arr, ann_key);
            match validate_allof_types(arr, path) {
                Ok(_) => {},
                Err(e) => {
                    return Err(e);
                },
            }
            let mut out: Vec<Json> = Vec::new();
            assert(items_model(out@) =~= Seq::empty());
            match resolve_branches(arr, options, path, &merged, &mut out) {
                Ok(_) => {
                    proof {
                        lemma_array_view(out);
                    }
                    Ok(Json::Array(out))
                },
                Err(e) => Err(e),
            }
        },
        other => Ok(strip_annotations(other)),
    }
}

fn resolve_branches(
    arr: &Vec<Json>,
    options: &ResolveOptions,
    path: &str,
    merged: &Vec<(String, Json)>,
    out: &mut Vec<Json>,
) -> (r: Result<(), ResolveError>)
    ensures
        items_result(r, final(out)@) == resolve_branches_spec(
            items_model(arr@),
            0,
            options.direction,
            options.operation@,
            path@,
            entries_model(merged@),
            items_model(old(out)@),
        ),
    decreases arr, 0nat,
{
    let ghost a = items_model(arr@);
    let ghost goal = resolve_branches_spec(
        a,
        0,
        options.direction,
        options.operation@,
        path@,
        entries_model(merged@),
        items_model(out@),
    );
    let ann_key = options.direction.annotation_key();
    let mut i: usize = 0;
    while i < arr.len()
        invariant
            i <= arr.len(),
            a == items_model(arr@),
            ann_key@ == annotation_key_of(options.direction),
            goal == resolve_branches_spec(
                a,
                0,
                options.direction,
                options.operation@,
                path@,
                entries_model(merged@),
                items_model(old(out)@),
            ),
            goal == resolve_branches_spec(
                a,
                i as nat,
                options.direction,
                options.operation@,
                path@,
                entries_model(merged@),
                items_model(out@),
            ),
        decreases arr.len() - i,
    {
        proof {
            vstd::std_specs::vec::axiom_vec_index_decreases(*arr, i as int);
        }
        let item_path = join_index(path, i);
        match check_monotonicity(&arr[i], merged, ann_key, options.operation.as_str(), item_path.as_str()) {
            Ok(_) => {},
            Err(e) => {
                return Err(e);
            },
        }
        let resolved = match &arr[i] {
            Json::Object(bm) => {
                proof {
                    lemma_object_view(*bm);
                }
                resolve_object(bm, options, item_path.as_str(), merged)
            },
            other => {
                assert(!(other@ is Object)) by {
                    match other {
                        Json::Object(_) => {},
                        _ => {},
                    }
                }
                resolve_value(other, options, item_path.as_str())
            },
        };
        assert(value_result(resolved) == resolve_branch_spec(
            a[i as int],
            options.direction,
            options.operation@,
            item_path@,
            entries_model(merged@),
        ));
        match resolved {
            Ok(v) => {
                proof {
                    crate::json::lemma_items_push(out@, v);
                }
                out.push(v);
            },
            Err(e) => {
                return Err(e);
            },
        }
        i += 1;
    }
    Ok(())
}

} // verus!
