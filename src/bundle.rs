//! Inlining of `$ref` references, within a document and across documents.
use vstd::prelude::*;
use vstd::string::*;

use crate::json::{
    entries_model, items_model, lemma_array_view, lemma_entries_push, lemma_items_push,
    lemma_object_view, obj_get, Json, JsonModel,
};
use crate::compose::{is_prefix, starts_with};
use crate::pointer::{pointer_target, resolve_pointer};

verus! {

/// How many references may be followed one inside another.
pub const MAX_REF_DEPTH: usize = 64;

/// Why references could not be inlined.
#[derive(Clone, Debug)]
pub enum BundleError {
    /// A reference leads back to one that is being inlined.
    CircularReference { chain: Vec<String> },
    /// A pointer names nothing in the document.
    PointerNotFound { pointer: String, in_document: String },
    /// References nest deeper than [`MAX_REF_DEPTH`].
    DepthExceeded,
    /// A reference names a document that is not among the loaded ones; the
    /// caller loads it and bundles again.
    DocumentNotLoaded { location: String },
    /// A document could not be loaded.
    LoadFailed { source: String, reason: String },
}

/// The model of a [`BundleError`].
pub enum BundleErrorModel {
    CircularReference { chain: Seq<Seq<char>> },
    PointerNotFound { pointer: Seq<char>, in_document: Seq<char> },
    DepthExceeded,
    DocumentNotLoaded { location: Seq<char> },
    LoadFailed { source: Seq<char>, reason: Seq<char> },
}

/// The models of a list of texts.
pub open spec fn texts_model(v: Seq<String>) -> Seq<Seq<char>> {
    Seq::new(v.len(), |i: int| v[i]@)
}

impl View for BundleError {
    type V = BundleErrorModel;

    open spec fn view(&self) -> BundleErrorModel {
        match self {
            BundleError::CircularReference { chain } => BundleErrorModel::CircularReference {
                chain: texts_model(chain@),
            },
            BundleError::PointerNotFound { pointer, in_document } => BundleErrorModel::PointerNotFound {
                pointer: pointer@,
                in_document: in_document@,
            },
            BundleError::DepthExceeded => BundleErrorModel::DepthExceeded,
            BundleError::DocumentNotLoaded { location } => BundleErrorModel::DocumentNotLoaded {
                location: location@,
            },
            BundleError::LoadFailed { source, reason } => BundleErrorModel::LoadFailed {
                source: source@,
                reason: reason@,
            },
        }
    }
}

/// The reference to the document's root, kept as it is.
pub open spec fn self_root() -> Seq<char> {
    seq!['#']
}

/// Where references are resolved: the current document, its location, and
/// the documents loaded so far, by location.
pub struct Scope {
    pub location: Seq<char>,
    pub doc: JsonModel,
    pub docs: Seq<(Seq<char>, JsonModel)>,
}

/// The index of the first `#` of `r` from `i` on, or its length.
pub open spec fn hash_from(r: Seq<char>, i: nat) -> nat
    decreases r.len() - i,
{
    if i >= r.len() {
        r.len()
    } else if r[i as int] == '#' {
        i
    } else {
        hash_from(r, i + 1)
    }
}

/// The location part of a reference: what precedes its first `#`.
pub open spec fn location_part(r: Seq<char>) -> Seq<char> {
    r.subrange(0, hash_from(r, 0) as int)
}

/// The pointer part of a reference: what follows its first `#`.
pub open spec fn fragment(r: Seq<char>) -> Seq<char> {
    if hash_from(r, 0) < r.len() {
        r.subrange(hash_from(r, 0) as int + 1, r.len() as int)
    } else {
        Seq::empty()
    }
}

/// The index just after the last `/` of `s` from `i` on, where `end` is the
/// one found so far.
pub open spec fn dir_end_from(s: Seq<char>, i: nat, end: nat) -> nat
    decreases s.len() - i,
{
    if i >= s.len() {
        end
    } else if s[i as int] == '/' {
        dir_end_from(s, i + 1, i + 1)
    } else {
        dir_end_from(s, i + 1, end)
    }
}

/// Whether a location stands on its own: a URL or an absolute path.
pub open spec fn is_absolute(l: Seq<char>) -> bool {
    is_prefix("http://"@, l) || is_prefix("https://"@, l) || (l.len() > 0 && l[0] == '/')
}

/// The location a reference names: the current one for an in-document
/// reference, an absolute location as it is, and a relative one taken from
/// the directory of the current location.
pub open spec fn target_location(r: Seq<char>, location: Seq<char>) -> Seq<char> {
    let l = location_part(r);
    if l.len() == 0 {
        location
    } else if is_absolute(l) {
        l
    } else {
        location.subrange(0, dir_end_from(location, 0, 0) as int) + l
    }
}

/// What identifies a reference in the chain: its document and pointer.
pub open spec fn ref_key(r: Seq<char>, sc: Scope) -> Seq<char> {
    target_location(r, sc.location) + self_root() + fragment(r)
}

/// The scope a reference is resolved in, where its document is loaded.
pub open spec fn ref_scope(r: Seq<char>, sc: Scope) -> Option<Scope> {
    if location_part(r).len() == 0 {
        Some(sc)
    } else {
        match obj_get(sc.docs, target_location(r, sc.location)) {
            Some(d) => Some(Scope { location: target_location(r, sc.location), doc: d, docs: sc.docs }),
            None => None,
        }
    }
}

/// `v` with every `$ref` other than `"#"` replaced by what it names, itself
/// inlined in the scope of its own document; `"#"` references stay. `chain`
/// holds the references being inlined around `v`, and `depth` their number.
pub open spec fn bundle_spec(
    v: JsonModel,
    sc: Scope,
    chain: Seq<Seq<char>>,
    depth: nat,
) -> Result<JsonModel, BundleErrorModel>
    decreases 64 - depth, v, 1nat,
{
    match v {
        JsonModel::Object(m) => {
            if follows_ref(m) {
                let r = obj_get(m, "$ref"@)->Some_0->String_0;
                let key = ref_key(r, sc);
                if chain.contains(key) {
                    Err(BundleErrorModel::CircularReference { chain: chain.push(key) })
                } else if depth >= 64 {
                    Err(BundleErrorModel::DepthExceeded)
                } else {
                    match ref_scope(r, sc) {
                        None => Err(
                            BundleErrorModel::DocumentNotLoaded { location: target_location(r, sc.location) },
                        ),
                        Some(ns) => match pointer_target(ns.doc, fragment(r)) {
                            None => Err(
                                BundleErrorModel::PointerNotFound { pointer: r, in_document: ns.location },
                            ),
                            Some(t) => bundle_spec(t, ns, chain.push(key), depth + 1),
                        },
                    }
                }
            } else {
                match bundle_entries_spec(m, 0, sc, chain, depth, Seq::empty()) {
                    Ok(e) => Ok(JsonModel::Object(e)),
                    Err(e) => Err(e),
                }
            }
        },
        JsonModel::Array(a) => match bundle_items_spec(a, 0, sc, chain, depth, Seq::empty()) {
            Ok(e) => Ok(JsonModel::Array(e)),
            Err(e) => Err(e),
        },
        _ => Ok(v),
    }
}

/// The entries of `m` from index `i` on, appended to `acc`: each value
/// inlined, but a `$ref` entry carried over as it is.
pub open spec fn bundle_entries_spec(
    m: Seq<(Seq<char>, JsonModel)>,
    i: nat,
    sc: Scope,
    chain: Seq<Seq<char>>,
    depth: nat,
    acc: Seq<(Seq<char>, JsonModel)>,
) -> Result<Seq<(Seq<char>, JsonModel)>, BundleErrorModel>
    decreases 64 - depth, m, m.len() - i,
{
    if i >= m.len() {
        Ok(acc)
    } else if m[i as int].0 == "$ref"@ {
        bundle_entries_spec(m, i + 1, sc, chain, depth, acc.push(m[i as int]))
    } else {
        match bundle_spec(m[i as int].1, sc, chain, depth) {
            Err(e) => Err(e),
            Ok(x) => bundle_entries_spec(m, i + 1, sc, chain, depth, acc.push((m[i as int].0, x))),
        }
    }
}

/// The items of `a` from index `i` on, each inlined, appended to `acc`.
pub open spec fn bundle_items_spec(
    a: Seq<JsonModel>,
    i: nat,
    sc: Scope,
    chain: Seq<Seq<char>>,
    depth: nat,
    acc: Seq<JsonModel>,
) -> Result<Seq<JsonModel>, BundleErrorModel>
    decreases 64 - depth, a, a.len() - i,
{
    if i >= a.len() {
        Ok(acc)
    } else {
        match bundle_spec(a[i as int], sc, chain, depth) {
            Err(e) => Err(e),
            Ok(x) => bundle_items_spec(a, i + 1, sc, chain, depth, acc.push(x)),
        }
    }
}

/// The bundle of the document `doc` at `location`, given the documents
/// loaded so far.
pub open spec fn bundled(doc: JsonModel, location: Seq<char>, docs: Seq<(Seq<char>, JsonModel)>) -> Result<
    JsonModel,
    BundleErrorModel,
> {
    bundle_spec(doc, Scope { location, doc, docs }, Seq::empty(), 0)
}

fn chars_of(s: &str) -> (r: Vec<char>)
    ensures
        r@ == s@,
{
    let n = s.unicode_len();
    let mut out: Vec<char> = Vec::new();
    let mut i: usize = 0;
    while i < n
        invariant
            i <= n,
            n == s@.len(),
            out@ == s@.subrange(0, i as int),
        decreases n - i,
    {
        out.push(s.get_char(i));
        assert(out@ =~= s@.subrange(0, i + 1));
        i += 1;
    }
    assert(s@.subrange(0, n as int) =~= s@);
    out
}

fn chain_holds(chain: &Vec<String>, r: &String) -> (b: bool)
    ensures
        b == texts_model(chain@).contains(r@),
{
    let mut i: usize = 0;
    while i < chain.len()
        invariant
            i <= chain.len(),
            forall|j: int| 0 <= j < i ==> texts_model(chain@)[j] != r@,
        decreases chain.len() - i,
    {
        if chain[i] == *r {
            assert(texts_model(chain@)[i as int] == r@);
            return true;
        }
        i += 1;
    }
    false
}

fn hash_position(rc: &Vec<char>) -> (h: usize)
    ensures
        h as nat == hash_from(rc@, 0),
        h <= rc@.len(),
{
    let mut i: usize = 0;
    while i < rc.len() && rc[i] != '#'
        invariant
            i <= rc@.len(),
            hash_from(rc@, 0) == hash_from(rc@, i as nat),
        decreases rc@.len() - i,
    {
        i += 1;
    }
    i
}

fn dir_end(loc: &str) -> (e: usize)
    ensures
        e as nat == dir_end_from(loc@, 0, 0),
        e <= loc@.len(),
{
    let n = loc.unicode_len();
    let mut end: usize = 0;
    let mut i: usize = 0;
    while i < n
        invariant
            i <= n,
            n == loc@.len(),
            end <= i,
            dir_end_from(loc@, 0, 0) == dir_end_from(loc@, i as nat, end as nat),
        decreases n - i,
    {
        if loc.get_char(i) == '/' {
            end = i + 1;
        }
        i += 1;
    }
    end
}

fn target_location_of(r: &str, h: usize, loc: &str) -> (t: String)
    requires
        h as nat == hash_from(r@, 0),
        h <= r@.len(),
    ensures
        t@ == target_location(r@, loc@),
{
    if h == 0 {
        return loc.to_owned();
    }
    let l = r.substring_char(0, h);
    if starts_with(l, "http://") || starts_with(l, "https://") || l.get_char(0) == '/' {
        l.to_owned()
    } else {
        let d = dir_end(loc);
        let mut t = loc.substring_char(0, d).to_owned();
        t.append(l);
        t
    }
}

fn bundle_value<'a>(
    v: &Json,
    loc: &str,
    doc: &'a Json,
    docs: &'a Vec<(String, Json)>,
    chain: &Vec<String>,
    depth: usize,
) -> (r: Result<Json, BundleError>)
    requires
        depth <= MAX_REF_DEPTH,
    ensures
        match r {
            Ok(j) => bundle_spec(
                v@,
                Scope { location: loc@, doc: doc@, docs: entries_model(docs@) },
                texts_model(chain@),
                depth as nat,
            ) == Ok::<JsonModel, BundleErrorModel>(j@),
            Err(e) => bundle_spec(
                v@,
                Scope { location: loc@, doc: doc@, docs: entries_model(docs@) },
                texts_model(chain@),
                depth as nat,
            ) == Err::<JsonModel, BundleErrorModel>(e@),
        },
    decreases 64 - depth, v, 1nat,
{
    let ghost sc = Scope { location: loc@, doc: doc@, docs: entries_model(docs@) };
    match v {
        Json::Object(m) => {
            proof {
                lemma_object_view(*m);
            }
            let target = match crate::json::get_entry(m, "$ref") {
                Some(Json::String(r)) => {
                    if r.as_str().unicode_len() == 1 && r.as_str().get_char(0) == '#' {
                        assert(r@ =~= self_root());
                        None
                    } else {
                        Some(r)
                    }
                },
                _ => None,
            };
            match target {
                Some(r) => {
                    let rc = chars_of(r.as_str());
                    let h = hash_position(&rc);
                    let tl = target_location_of(r.as_str(), h, loc);
                    let frag: &str = if h < rc.len() {
                        r.as_str().substring_char(h + 1, rc.len())
                    } else {
                        ""
                    };
                    proof {
                        reveal_strlit("");
                        reveal_strlit("#");
                        assert(frag@ =~= fragment(r@));
                    }
                    let mut key = tl.clone();
                    key.append("#");
                    key.append(frag);
                    assert(key@ =~= ref_key(r@, sc));
                    if chain_holds(chain, &key) {
                        let mut c = chain.clone();
                        let ghost before = chain@;
                        c.push(key);
                        assert(texts_model(c@) =~= texts_model(before).push(ref_key(r@, sc)));
                        return Err(BundleError::CircularReference { chain: c });
                    }
                    if depth >= MAX_REF_DEPTH {
                        return Err(BundleError::DepthExceeded);
                    }
                    let ndoc: &'a Json = if h == 0 {
                        doc
                    } else {
                        match crate::json::get_entry(docs, tl.as_str()) {
                            Some(d) => d,
                            None => {
                                return Err(BundleError::DocumentNotLoaded { location: tl });
                            },
                        }
                    };
                    let mut p: Vec<char> = Vec::new();
                    if h < rc.len() {
                        let mut i: usize = h + 1;
                        while i < rc.len()
                            invariant
                                h < rc@.len(),
                                h + 1 <= i <= rc@.len(),
                                p@ == rc@.subrange(h + 1, i as int),
                            decreases rc@.len() - i,
                        {
                            p.push(rc[i]);
                            assert(p@ =~= rc@.subrange(h + 1, i + 1));
                            i += 1;
                        }
                    }
                    assert(p@ =~= fragment(r@));
                    match resolve_pointer(ndoc, &p) {
                        None => Err(BundleError::PointerNotFound { pointer: r.clone(), in_document: tl }),
                        Some(t) => {
                            let mut c = chain.clone();
                            let ghost before = chain@;
                            c.push(key);
                            assert(texts_model(c@) =~= texts_model(before).push(ref_key(r@, sc)));
                            bundle_value(t, tl.as_str(), ndoc, docs, &c, depth + 1)
                        },
                    }
                },
                None => {
                    let mut out: Vec<(String, Json)> = Vec::new();
                    assert(entries_model(out@) =~= Seq::empty());
                    match bundle_entries(m, loc, doc, docs, chain, depth, &mut out) {
                        Ok(_) => {
                            proof {
                                lemma_object_view(out);
                            }
                            Ok(Json::Object(out))
                        },
                        Err(e) => Err(e),
                    }
                },
            }
        },
        Json::Array(a) => {
            proof {
                lemma_array_view(*a);
            }
            let mut out: Vec<Json> = Vec::new();
            assert(items_model(out@) =~= Seq::empty());
            match bundle_items(a, loc, doc, docs, chain, depth, &mut out) {
                Ok(_) => {
                    proof {
                        lemma_array_view(out);
                    }
                    Ok(Json::Array(out))
                },
                Err(e) => Err(e),
            }
        },
        other => Ok(other.deep_copy()),
    }
}

fn bundle_entries(
    m: &Vec<(String, Json)>,
    loc: &str,
    doc: &Json,
    docs: &Vec<(String, Json)>,
    chain: &Vec<String>,
    depth: usize,
    out: &mut Vec<(String, Json)>,
) -> (r: Result<(), BundleError>)
    requires
        depth <= MAX_REF_DEPTH,
    ensures
        match r {
            Ok(_) => bundle_entries_spec(
                entries_model(m@),
                0,
                Scope { location: loc@, doc: doc@, docs: entries_model(docs@) },
                texts_model(chain@),
                depth as nat,
                entries_model(old(out)@),
            ) == Ok::<Seq<(Seq<char>, JsonModel)>, BundleErrorModel>(entries_model(final(out)@)),
            Err(e) => bundle_entries_spec(
                entries_model(m@),
                0,
                Scope { location: loc@, doc: doc@, docs: entries_model(docs@) },
                texts_model(chain@),
                depth as nat,
                entries_model(old(out)@),
            ) == Err::<Seq<(Seq<char>, JsonModel)>, BundleErrorModel>(e@),
        },
    decreases 64 - depth, m, 0nat,
{
    let ghost mm = entries_model(m@);
    let ghost goal = bundle_entries_spec(mm, 0, Scope { location: loc@, doc: doc@, docs: entries_model(docs@) }, texts_model(chain@), depth as nat, entries_model(out@));
    let mut i: usize = 0;
    while i < m.len()
        invariant
            i <= m.len(),
            depth <= MAX_REF_DEPTH,
            mm == entries_model(m@),
            goal == bundle_entries_spec(mm, 0, Scope { location: loc@, doc: doc@, docs: entries_model(docs@) }, texts_model(chain@), depth as nat, entries_model(old(out)@)),
            goal == bundle_entries_spec(mm, i as nat, Scope { location: loc@, doc: doc@, docs: entries_model(docs@) }, texts_model(chain@), depth as nat, entries_model(out@)),
        decreases m.len() - i,
    {
        proof {
            vstd::std_specs::vec::axiom_vec_index_decreases(*m, i as int);
        }
        if crate::json::same_text(m[i].0.as_str(), "$ref") {
            let e = (m[i].0.clone(), m[i].1.deep_copy());
            proof {
                lemma_entries_push(out@, e);
            }
            out.push(e);
            i += 1;
            continue;
        }
        match bundle_value(&m[i].1, loc, doc, docs, chain, depth) {
            Ok(x) => {
                let e = (m[i].0.clone(), x);
                proof {
                    lemma_entries_push(out@, e);
                }
                out.push(e);
            },
            Err(e) => {
                return Err(e);
            },
        }
        i += 1;
    }
    Ok(())
}

fn bundle_items(
    a: &Vec<Json>,
    loc: &str,
    doc: &Json,
    docs: &Vec<(String, Json)>,
    chain: &Vec<String>,
    depth: usize,
    out: &mut Vec<Json>,
) -> (r: Result<(), BundleError>)
    requires
        depth <= MAX_REF_DEPTH,
    ensures
        match r {
            Ok(_) => bundle_items_spec(
                items_model(a@),
                0,
                Scope { location: loc@, doc: doc@, docs: entries_model(docs@) },
                texts_model(chain@),
                depth as nat,
                items_model(old(out)@),
            ) == Ok::<Seq<JsonModel>, BundleErrorModel>(items_model(final(out)@)),
            Err(e) => bundle_items_spec(
                items_model(a@),
                0,
                Scope { location: loc@, doc: doc@, docs: entries_model(docs@) },
                texts_model(chain@),
                depth as nat,
                items_model(old(out)@),
            ) == Err::<Seq<JsonModel>, BundleErrorModel>(e@),
        },
    decreases 64 - depth, a, 0nat,
{
    let ghost am = items_model(a@);
    let ghost goal = bundle_items_spec(am, 0, Scope { location: loc@, doc: doc@, docs: entries_model(docs@) }, texts_model(chain@), depth as nat, items_model(out@));
    let mut i: usize = 0;
    while i < a.len()
        invariant
            i <= a.len(),
            depth <= MAX_REF_DEPTH,
            am == items_model(a@),
            goal == bundle_items_spec(am, 0, Scope { location: loc@, doc: doc@, docs: entries_model(docs@) }, texts_model(chain@), depth as nat, items_model(old(out)@)),
            goal == bundle_items_spec(am, i as nat, Scope { location: loc@, doc: doc@, docs: entries_model(docs@) }, texts_model(chain@), depth as nat, items_model(out@)),
        decreases a.len() - i,
    {
        proof {
            vstd::std_specs::vec::axiom_vec_index_decreases(*a, i as int);
        }
        match bundle_value(&a[i], loc, doc, docs, chain, depth) {
            Ok(x) => {
                proof {
                    lemma_items_push(out@, x);
                }
                out.push(x);
            },
            Err(e) => {
                return Err(e);
            },
        }
        i += 1;
    }
    Ok(())
}

/// Inlines every `$ref` of the document `doc`, found at `location`, other
/// than `"#"`: a reference is replaced by what its pointer names in its
/// document (this one, or one of `docs`, looked up by location relative to
/// the referring document), itself inlined first; sibling keys of `$ref` are
/// dropped. Fails on a document not among `docs`, a pointer that names
/// nothing, a reference cycle, or references nested deeper than
/// [`MAX_REF_DEPTH`].
pub fn bundle_refs(doc: &Json, location: &str, docs: &Vec<(String, Json)>) -> (r: Result<Json, BundleError>)
    ensures
        match r {
            Ok(j) => bundled(doc@, location@, entries_model(docs@)) == Ok::<JsonModel, BundleErrorModel>(j@),
            Err(e) => bundled(doc@, location@, entries_model(docs@)) == Err::<JsonModel, BundleErrorModel>(e@),
        },
{
    let chain: Vec<String> = Vec::new();
    assert(texts_model(chain@) =~= Seq::<Seq<char>>::empty());
    bundle_value(doc, location, doc, docs, &chain, 0)
}

impl BundleError {
    /// The exit code of a command that fails with this error: an I/O failure
    /// for a document that could not be loaded, bad input otherwise.
    pub fn exit_code(&self) -> (r: i32)
        ensures
            r == (if self is LoadFailed || self is DocumentNotLoaded {
                3int
            } else {
                2int
            }),
    {
        match self {
            BundleError::LoadFailed { .. } => 3,
            BundleError::DocumentNotLoaded { .. } => 3,
            _ => 2,
        }
    }
}

/// Whether an object carries a `$ref` that bundling would follow.
pub open spec fn follows_ref(m: Seq<(Seq<char>, JsonModel)>) -> bool {
    obj_get(m, "$ref"@) is Some && obj_get(m, "$ref"@)->Some_0 is String && obj_get(m, "$ref"@)->Some_0->String_0
        != self_root()
}

/// A value with no `$ref` left to inline, at any depth: every `$ref` text is `"#"`.
pub open spec fn refs_inlined(v: JsonModel) -> bool
    decreases v, 1nat,
{
    match v {
        JsonModel::Object(m) => !follows_ref(m) && entries_inlined(m),
        JsonModel::Array(a) => items_inlined(a),
        _ => true,
    }
}

/// Entries whose values, but for `$ref` entries, have no `$ref` left to inline.
pub open spec fn entries_inlined(m: Seq<(Seq<char>, JsonModel)>) -> bool
    decreases m, 0nat,
{
    forall|i: int| 0 <= i < m.len() && #[trigger] m[i].0 != "$ref"@ ==> refs_inlined(m[i].1)
}

/// Items with no `$ref` left to inline.
pub open spec fn items_inlined(a: Seq<JsonModel>) -> bool
    decreases a, 0nat,
{
    forall|i: int| 0 <= i < a.len() ==> refs_inlined(#[trigger] a[i])
}

/// What bundling yields has no `$ref` left to inline.
pub proof fn lemma_bundle_inlines(v: JsonModel, sc: Scope, chain: Seq<Seq<char>>, depth: nat)
    requires
        bundle_spec(v, sc, chain, depth) is Ok,
    ensures
        refs_inlined(bundle_spec(v, sc, chain, depth)->Ok_0),
    decreases 64 - depth, v, 1nat,
{
    match v {
        JsonModel::Object(m) => {
            if follows_ref(m) {
                let r = obj_get(m, "$ref"@)->Some_0->String_0;
                let ns = ref_scope(r, sc)->Some_0;
                let t = pointer_target(ns.doc, fragment(r))->Some_0;
                lemma_bundle_inlines(t, ns, chain.push(ref_key(r, sc)), depth + 1);
            } else {
                lemma_entries_inline(m, 0, sc, chain, depth, Seq::empty());
                let e0: Seq<(Seq<char>, JsonModel)> = Seq::empty();
                lemma_entries_shape(m, 0, sc, chain, depth, e0);
                let e = bundle_entries_spec(m, 0, sc, chain, depth, e0)->Ok_0;
                assert(e.len() == e0.len() + m.len() - 0);
                assert(e.len() == m.len());
                assert forall|j: int| 0 <= j < m.len() implies #[trigger] e[j].0 == m[j].0 && (m[j].0
                    == "$ref"@ ==> e[j].1 == m[j].1) by {
                    assert(e[e0.len() + j - 0] == e[j]);
                }
                lemma_same_ref(m, e);
            }
        },
        JsonModel::Array(a) => lemma_items_inline(a, 0, sc, chain, depth, Seq::empty()),
        _ => {},
    }
}

proof fn lemma_entries_inline(
    m: Seq<(Seq<char>, JsonModel)>,
    i: nat,
    sc: Scope,
    chain: Seq<Seq<char>>,
    depth: nat,
    acc: Seq<(Seq<char>, JsonModel)>,
)
    requires
        entries_inlined(acc),
        bundle_entries_spec(m, i, sc, chain, depth, acc) is Ok,
    ensures
        entries_inlined(bundle_entries_spec(m, i, sc, chain, depth, acc)->Ok_0),
    decreases 64 - depth, m, m.len() - i,
{
    if i < m.len() {
        if m[i as int].0 == "$ref"@ {
            let n = acc.push(m[i as int]);
            assert forall|j: int| 0 <= j < n.len() && #[trigger] n[j].0 != "$ref"@ implies refs_inlined(n[j].1) by {
                if j < acc.len() {
                    assert(n[j] == acc[j]);
                }
            }
            lemma_entries_inline(m, i + 1, sc, chain, depth, n);
        } else {
            lemma_bundle_inlines(m[i as int].1, sc, chain, depth);
            let x = bundle_spec(m[i as int].1, sc, chain, depth)->Ok_0;
            let n = acc.push((m[i as int].0, x));
            assert forall|j: int| 0 <= j < n.len() && #[trigger] n[j].0 != "$ref"@ implies refs_inlined(n[j].1) by {
                if j < acc.len() {
                    assert(n[j] == acc[j]);
                }
            }
            lemma_entries_inline(m, i + 1, sc, chain, depth, n);
        }
    }
}

proof fn lemma_items_inline(
    a: Seq<JsonModel>,
    i: nat,
    sc: Scope,
    chain: Seq<Seq<char>>,
    depth: nat,
    acc: Seq<JsonModel>,
)
    requires
        items_inlined(acc),
        bundle_items_spec(a, i, sc, chain, depth, acc) is Ok,
    ensures
        items_inlined(bundle_items_spec(a, i, sc, chain, depth, acc)->Ok_0),
    decreases 64 - depth, a, a.len() - i,
{
    if i < a.len() {
        lemma_bundle_inlines(a[i as int], sc, chain, depth);
        let n = acc.push(bundle_spec(a[i as int], sc, chain, depth)->Ok_0);
        assert forall|j: int| 0 <= j < n.len() implies refs_inlined(#[trigger] n[j]) by {
            if j < acc.len() {
                assert(n[j] == acc[j]);
            }
        }
        lemma_items_inline(a, i + 1, sc, chain, depth, n);
    }
}

proof fn lemma_entries_shape(
    m: Seq<(Seq<char>, JsonModel)>,
    i: nat,
    sc: Scope,
    chain: Seq<Seq<char>>,
    depth: nat,
    acc: Seq<(Seq<char>, JsonModel)>,
)
    requires
        i <= m.len(),
        bundle_entries_spec(m, i, sc, chain, depth, acc) is Ok,
    ensures
        ({
            let e = bundle_entries_spec(m, i, sc, chain, depth, acc)->Ok_0;
            &&& e.len() == acc.len() + m.len() - i
            &&& forall|j: int| 0 <= j < acc.len() ==> #[trigger] e[j] == acc[j]
            &&& forall|j: int|
                i <= j < m.len() ==> #[trigger] e[acc.len() + j - i].0 == m[j].0 && (m[j].0 == "$ref"@
                    ==> e[acc.len() + j - i].1 == m[j].1)
        }),
    decreases m.len() - i,
{
    if i < m.len() {
        let n = if m[i as int].0 == "$ref"@ {
            acc.push(m[i as int])
        } else {
            acc.push((m[i as int].0, bundle_spec(m[i as int].1, sc, chain, depth)->Ok_0))
        };
        lemma_entries_shape(m, i + 1, sc, chain, depth, n);
        let e = bundle_entries_spec(m, i, sc, chain, depth, acc)->Ok_0;
        assert(e == bundle_entries_spec(m, i + 1, sc, chain, depth, n)->Ok_0);
        assert forall|j: int| 0 <= j < acc.len() implies #[trigger] e[j] == acc[j] by {
            assert(n[j] == acc[j]);
        }
        assert forall|j: int| i <= j < m.len() implies #[trigger] e[acc.len() + j - i].0 == m[j].0 && (
        m[j].0 == "$ref"@ ==> e[acc.len() + j - i].1 == m[j].1) by {
            if j == i {
                assert(e[acc.len() as int] == n[acc.len() as int]);
            } else {
                assert(e[n.len() + j - (i + 1)].0 == m[j].0);
            }
        }
    }
}

proof fn lemma_same_ref(m: Seq<(Seq<char>, JsonModel)>, e: Seq<(Seq<char>, JsonModel)>)
    requires
        e.len() == m.len(),
        forall|j: int| 0 <= j < m.len() ==> #[trigger] e[j].0 == m[j].0 && (m[j].0 == "$ref"@ ==> e[j].1 == m[j].1),
    ensures
        obj_get(e, "$ref"@) == obj_get(m, "$ref"@),
    decreases m.len(),
{
    if m.len() > 0 {
        assert(e[0].0 == m[0].0);
        let (mt, et) = (m.drop_first(), e.drop_first());
        assert forall|j: int| 0 <= j < mt.len() implies #[trigger] et[j].0 == mt[j].0 && (mt[j].0
            == "$ref"@ ==> et[j].1 == mt[j].1) by {
            assert(e[j + 1].0 == m[j + 1].0);
        }
        lemma_same_ref(mt, et);
    }
}

/// Bundling a value with no `$ref` left to inline gives it back unchanged.
pub proof fn lemma_bundle_keeps(v: JsonModel, sc: Scope, chain: Seq<Seq<char>>, depth: nat)
    requires
        refs_inlined(v),
    ensures
        bundle_spec(v, sc, chain, depth) == Ok::<JsonModel, BundleErrorModel>(v),
    decreases v, 1nat,
{
    match v {
        JsonModel::Object(m) => {
            assert(m.subrange(0, 0) =~= Seq::<(Seq<char>, JsonModel)>::empty());
            lemma_entries_keep(m, 0, sc, chain, depth);
            assert(m.subrange(0, m.len() as int) =~= m);
        },
        JsonModel::Array(a) => {
            assert(a.subrange(0, 0) =~= Seq::<JsonModel>::empty());
            lemma_items_keep(a, 0, sc, chain, depth);
            assert(a.subrange(0, a.len() as int) =~= a);
        },
        _ => {},
    }
}

proof fn lemma_entries_keep(
    m: Seq<(Seq<char>, JsonModel)>,
    i: nat,
    sc: Scope,
    chain: Seq<Seq<char>>,
    depth: nat,
)
    requires
        i <= m.len(),
        entries_inlined(m),
    ensures
        bundle_entries_spec(m, i, sc, chain, depth, m.subrange(0, i as int)) == Ok::<
            Seq<(Seq<char>, JsonModel)>,
            BundleErrorModel,
        >(m),
    decreases m, m.len() - i,
{
    if i < m.len() {
        if m[i as int].0 != "$ref"@ {
            assert(refs_inlined(m[i as int].1));
            lemma_bundle_keeps(m[i as int].1, sc, chain, depth);
        }
        assert(m.subrange(0, i as int).push((m[i as int].0, m[i as int].1)) =~= m.subrange(0, i as int + 1));
        lemma_entries_keep(m, i + 1, sc, chain, depth);
    } else {
        assert(m.subrange(0, i as int) =~= m);
    }
}

proof fn lemma_items_keep(a: Seq<JsonModel>, i: nat, sc: Scope, chain: Seq<Seq<char>>, depth: nat)
    requires
        i <= a.len(),
        items_inlined(a),
    ensures
        bundle_items_spec(a, i, sc, chain, depth, a.subrange(0, i as int)) == Ok::<
            Seq<JsonModel>,
            BundleErrorModel,
        >(a),
    decreases a, a.len() - i,
{
    if i < a.len() {
        assert(refs_inlined(a[i as int]));
        lemma_bundle_keeps(a[i as int], sc, chain, depth);
        assert(a.subrange(0, i as int).push(a[i as int]) =~= a.subrange(0, i as int + 1));
        lemma_items_keep(a, i + 1, sc, chain, depth);
    } else {
        assert(a.subrange(0, i as int) =~= a);
    }
}

/// Bundling is idempotent: bundling a bundled document gives it back,
/// wherever it is placed and whatever documents are loaded, so
/// `bundle(bundle(x)) == bundle(x)`.
pub proof fn lemma_bundle_idempotent(
    doc: JsonModel,
    location: Seq<char>,
    docs: Seq<(Seq<char>, JsonModel)>,
    location2: Seq<char>,
    docs2: Seq<(Seq<char>, JsonModel)>,
)
    requires
        bundled(doc, location, docs) is Ok,
    ensures
        bundled(bundled(doc, location, docs)->Ok_0, location2, docs2) == bundled(doc, location, docs),
{
    let y = bundled(doc, location, docs)->Ok_0;
    lemma_bundle_inlines(doc, Scope { location, doc, docs }, Seq::empty(), 0);
    lemma_bundle_keeps(y, Scope { location: location2, doc: y, docs: docs2 }, Seq::empty(), 0);
}

/// `acc` followed by the links of a chain from index `i` on, each after ` -> `.
pub open spec fn joined_chain(chain: Seq<Seq<char>>, i: nat, acc: Seq<char>) -> Seq<char>
    decreases chain.len() - i,
{
    if i >= chain.len() {
        acc
    } else {
        joined_chain(chain, i + 1, acc + " -> "@ + chain[i as int])
    }
}

/// The text that describes a bundling error.
pub open spec fn bundle_message(e: BundleErrorModel) -> Seq<char> {
    match e {
        BundleErrorModel::CircularReference { chain } => joined_chain(chain, 0, "circular reference:"@),
        BundleErrorModel::PointerNotFound { pointer, in_document } => "pointer "@ + pointer
            + " not found in "@ + in_document,
        BundleErrorModel::DepthExceeded => "references nested too deep"@,
        BundleErrorModel::DocumentNotLoaded { location } => "document not loaded: "@ + location,
        BundleErrorModel::LoadFailed { source, reason } => "failed to load "@ + source + ": "@ + reason,
    }
}

impl BundleError {
    /// The text that describes this error.
    pub fn message(&self) -> (r: String)
        ensures
            r@ == bundle_message(self@),
    {
        match self {
            BundleError::CircularReference { chain } => {
                let mut s = String::from_str("circular reference:");
                let mut i: usize = 0;
                while i < chain.len()
                    invariant
                        i <= chain.len(),
                        bundle_message(self@) == joined_chain(texts_model(chain@), i as nat, s@),
                    decreases chain.len() - i,
                {
                    let ghost before = s@;
                    s.append(" -> ");
                    s.append(chain[i].as_str());
                    assert(s@ =~= before + " -> "@ + texts_model(chain@)[i as int]);
                    i += 1;
                }
                s
            },
            BundleError::PointerNotFound { pointer, in_document } => {
                let mut s = String::from_str("pointer ");
                s.append(pointer.as_str());
                s.append(" not found in ");
                s.append(in_document.as_str());
                s
            },
            BundleError::DepthExceeded => String::from_str("references nested too deep"),
            BundleError::DocumentNotLoaded { location } => {
                let mut s = String::from_str("document not loaded: ");
                s.append(location.as_str());
                s
            },
            BundleError::LoadFailed { source, reason } => {
                let mut s = String::from_str("failed to load ");
                s.append(source.as_str());
                s.append(": ");
                s.append(reason.as_str());
                s
            },
        }
    }
}

} // verus!
