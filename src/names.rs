//! Lists of property names, as kept in `required` arrays.
use vstd::prelude::*;

use crate::json::{
    entries_model, get_entry, items_model, lemma_array_view, lemma_prefix_step,
    obj_get, same_text, strings_of, Json, JsonModel,
};

verus! {

/// The model of a list of names.
pub open spec fn names_model(v: Seq<String>) -> Seq<Seq<char>> {
    Seq::new(v.len(), |i: int| v[i]@)
}

/// `req` without any occurrence of `n`, in order.
pub open spec fn without_name(req: Seq<Seq<char>>, n: Seq<char>) -> Seq<Seq<char>>
    decreases req.len(),
{
    if req.len() == 0 {
        req
    } else {
        let p = without_name(req.drop_last(), n);
        if req.last() == n {
            p
        } else {
            p.push(req.last())
        }
    }
}

/// `req` with `n` appended, unless it holds `n` already.
pub open spec fn with_name(req: Seq<Seq<char>>, n: Seq<char>) -> Seq<Seq<char>> {
    if req.contains(n) {
        req
    } else {
        req.push(n)
    }
}

/// The string items of an object's `required` array; empty where there is none.
pub open spec fn required_names(m: Seq<(Seq<char>, JsonModel)>) -> Seq<Seq<char>> {
    match obj_get(m, "required"@) {
        Some(JsonModel::Array(a)) => strings_of(a),
        _ => Seq::empty(),
    }
}

/// A list of names as a JSON array of strings.
pub open spec fn names_json(req: Seq<Seq<char>>) -> JsonModel {
    JsonModel::Array(Seq::new(req.len(), |i: int| JsonModel::String(req[i])))
}

/// Whether `req` holds `n`.
pub fn contains_name(req: &Vec<String>, n: &str) -> (r: bool)
    ensures
        r == names_model(req@).contains(n@),
{
    let mut i: usize = 0;
    while i < req.len()
        invariant
            i <= req.len(),
            forall|j: int| 0 <= j < i ==> names_model(req@)[j] != n@,
        decreases req.len() - i,
    {
        if same_text(req[i].as_str(), n) {
            assert(names_model(req@)[i as int] == n@);
            return true;
        }
        i += 1;
    }
    false
}

/// Removes every occurrence of `n` from `req`.
pub fn remove_name(req: &mut Vec<String>, n: &str)
    ensures
        names_model(final(req)@) == without_name(names_model(old(req)@), n@),
{
    let ghost m = names_model(req@);
    let mut out: Vec<String> = Vec::new();
    let mut i: usize = 0;
    while i < req.len()
        invariant
            i <= req.len(),
            m == names_model(req@),
            names_model(out@) == without_name(m.subrange(0, i as int), n@),
        decreases req.len() - i,
    {
        proof {
            lemma_prefix_step(m, i as int);
            assert(m.subrange(0, i + 1).drop_last() == m.subrange(0, i as int));
        }
        if !same_text(req[i].as_str(), n) {
            let x = req[i].clone();
            out.push(x);
            assert(names_model(out@) =~= names_model(out@).drop_last().push(x@));
            assert(names_model(out@).drop_last() =~= without_name(m.subrange(0, i as int), n@));
        }
        i += 1;
    }
    assert(m.subrange(0, m.len() as int) =~= m);
    *req = out;
}

/// Appends `n` to `req`, unless it holds `n` already.
pub fn add_name(req: &mut Vec<String>, n: &str)
    ensures
        names_model(final(req)@) == with_name(names_model(old(req)@), n@),
{
    if !contains_name(req, n) {
        req.push(n.to_owned());
        assert(names_model(req@) =~= names_model(old(req)@).push(n@));
    }
}

/// The string items of `entries`' `required` array; empty where there is none.
pub fn required_list(entries: &Vec<(String, Json)>) -> (r: Vec<String>)
    ensures
        names_model(r@) == required_names(entries_model(entries@)),
{
    let mut out: Vec<String> = Vec::new();
    match get_entry(entries, "required") {
        Some(Json::Array(items)) => {
            proof {
                lemma_array_view(*items);
            }
            let ghost a = items_model(items@);
            let mut i: usize = 0;
            while i < items.len()
                invariant
                    i <= items.len(),
                    a == items_model(items@),
                    names_model(out@) == strings_of(a.subrange(0, i as int)),
                decreases items.len() - i,
            {
                proof {
                    lemma_prefix_step(a, i as int);
                    assert(a.subrange(0, i + 1).drop_last() == a.subrange(0, i as int));
                }
                match &items[i] {
                    Json::String(s) => {
                        out.push(s.clone());
                        assert(names_model(out@) =~= names_model(out@).drop_last().push(s@));
                        assert(names_model(out@).drop_last() =~= strings_of(a.subrange(0, i as int)));
                    },
                    _ => {},
                }
                i += 1;
            }
            assert(a.subrange(0, a.len() as int) =~= a);
        },
        _ => {},
    }
    out
}

/// A list of names as a JSON array of strings.
pub fn names_to_json(req: &Vec<String>) -> (r: Json)
    ensures
        r@ == names_json(names_model(req@)),
{
    let mut out: Vec<Json> = Vec::new();
    let mut i: usize = 0;
    while i < req.len()
        invariant
            i <= req.len(),
            out@.len() == i,
            forall|j: int| 0 <= j < i ==> (#[trigger] out@[j])@ == JsonModel::String(req@[j]@),
        decreases req.len() - i,
    {
        out.push(Json::String(req[i].clone()));
        i += 1;
    }
    proof {
        lemma_array_view(out);
        assert(items_model(out@) =~= names_json(names_model(req@))->Array_0);
    }
    Json::Array(out)
}

} // verus!
