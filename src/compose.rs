//! Self-describing payloads: their direction, their capabilities, and the
//! schema composed from the capabilities' schemas.
use vstd::prelude::*;
use vstd::string::*;

use crate::json::{
    entries_model, get_entry, items_model, lemma_array_view, lemma_object_view, obj_get,
    str_or_empty, text_or_empty, Json, JsonModel,
};
use crate::types::Direction;

verus! {

/// The direction a self-describing payload declares.
#[derive(Clone, Copy, Debug, PartialEq, Eq, Structural)]
pub enum DetectedDirection {
    /// The payload carries `ucp.capabilities`.
    Response,
    /// The payload carries `meta.profile`.
    Request,
}

impl DetectedDirection {
    /// The direction to resolve for.
    pub fn direction(&self) -> (r: Direction)
        ensures
            r == (match self {
                DetectedDirection::Response => Direction::Response,
                DetectedDirection::Request => Direction::Request,
            }),
    {
        match self {
            DetectedDirection::Response => Direction::Response,
            DetectedDirection::Request => Direction::Request,
        }
    }
}

/// The value under `outer.inner` of an object, if any.
pub open spec fn nested_get(v: JsonModel, outer: Seq<char>, inner: Seq<char>) -> Option<JsonModel> {
    match v {
        JsonModel::Object(m) => match obj_get(m, outer) {
            Some(JsonModel::Object(o)) => obj_get(o, inner),
            _ => None,
        },
        _ => None,
    }
}

/// The direction of a payload: `Response` where `ucp.capabilities` is a
/// non-empty object, else `Request` where `meta.profile` is a string, else none.
pub open spec fn detect_spec(v: JsonModel) -> Option<DetectedDirection> {
    if nested_get(v, "ucp"@, "capabilities"@) matches Some(JsonModel::Object(c)) && c.len() > 0 {
        Some(DetectedDirection::Response)
    } else if nested_get(v, "meta"@, "profile"@) is Some && nested_get(v, "meta"@, "profile"@)->Some_0 is String {
        Some(DetectedDirection::Request)
    } else {
        None
    }
}

fn nested_entry<'a>(v: &'a Json, outer: &str, inner: &str) -> (r: Option<&'a Json>)
    ensures
        match r {
            Some(j) => nested_get(v@, outer@, inner@) == Some(j@),
            None => nested_get(v@, outer@, inner@) is None,
        },
{
    match v {
        Json::Object(m) => {
            proof {
                lemma_object_view(*m);
            }
            match get_entry(m, outer) {
                Some(Json::Object(o)) => {
                    proof {
                        lemma_object_view(*o);
                    }
                    get_entry(o, inner)
                },
                _ => None,
            }
        },
        _ => None,
    }
}

/// The direction a payload declares: `Response` for `ucp.capabilities`,
/// `Request` for `meta.profile`; none for a plain schema.
pub fn detect_direction(value: &Json) -> (r: Option<DetectedDirection>)
    ensures
        r == detect_spec(value@),
{
    match nested_entry(value, "ucp", "capabilities") {
        Some(Json::Object(c)) => {
            proof {
                lemma_object_view(*c);
            }
            if c.len() > 0 {
                return Some(DetectedDirection::Response);
            }
        },
        _ => {},
    }
    match nested_entry(value, "meta", "profile") {
        Some(Json::String(_)) => Some(DetectedDirection::Request),
        _ => None,
    }
}

/// A capability that a payload advertises.
#[derive(Clone, Debug)]
pub struct Capability {
    pub name: String,
    pub version: String,
    pub schema_url: String,
    /// The capability this one extends; none for the root.
    pub extends: Option<String>,
}

/// The model of a [`Capability`].
pub struct CapabilityModel {
    pub name: Seq<char>,
    pub version: Seq<char>,
    pub schema_url: Seq<char>,
    pub extends: Option<Seq<char>>,
}

impl View for Capability {
    type V = CapabilityModel;

    open spec fn view(&self) -> CapabilityModel {
        CapabilityModel {
            name: self.name@,
            version: self.version@,
            schema_url: self.schema_url@,
            extends: match self.extends {
                Some(p) => Some(p@),
                None => None,
            },
        }
    }
}

/// The models of a list of capabilities.
pub open spec fn caps_model(c: Seq<Capability>) -> Seq<CapabilityModel> {
    Seq::new(c.len(), |i: int| c[i]@)
}

/// Why a schema could not be composed from capabilities.
#[derive(Clone, Debug)]
pub enum ComposeError {
    /// The payload advertises no usable capability.
    NoCapabilities,
    /// No capability is a root (every one extends another).
    NoRoot,
    /// More than one capability is a root.
    MultipleRoots { names: Vec<String> },
    /// A capability extends one that the payload does not advertise.
    UnknownParent { name: String, parent: String },
    /// A capability's schema could not be loaded.
    FetchFailed { url: String, reason: String },
}

impl ComposeError {
    /// The exit code of a command that fails with this error: bad input, or
    /// an I/O failure for a schema that could not be loaded.
    pub fn exit_code(&self) -> (r: i32)
        ensures
            r == (if self is FetchFailed {
                3int
            } else {
                2int
            }),
    {
        match self {
            ComposeError::FetchFailed { .. } => 3,
            _ => 2,
        }
    }
}

/// The model of a [`ComposeError`]'s kind and names.
pub enum ComposeErrorModel {
    NoCapabilities,
    NoRoot,
    MultipleRoots { names: Seq<Seq<char>> },
    UnknownParent { name: Seq<char>, parent: Seq<char> },
    FetchFailed { url: Seq<char>, reason: Seq<char> },
}

impl View for ComposeError {
    type V = ComposeErrorModel;

    open spec fn view(&self) -> ComposeErrorModel {
        match self {
            ComposeError::NoCapabilities => ComposeErrorModel::NoCapabilities,
            ComposeError::NoRoot => ComposeErrorModel::NoRoot,
            ComposeError::MultipleRoots { names } => ComposeErrorModel::MultipleRoots {
                names: Seq::new(names.len() as nat, |i: int| names@[i]@),
            },
            ComposeError::UnknownParent { name, parent } => ComposeErrorModel::UnknownParent {
                name: name@,
                parent: parent@,
            },
            ComposeError::FetchFailed { url, reason } => ComposeErrorModel::FetchFailed {
                url: url@,
                reason: reason@,
            },
        }
    }
}

/// The capability that the first version entry of `versions` describes: it
/// needs a string `schema`; `version` defaults to empty and `extends` to none.
pub open spec fn capability_of(name: Seq<char>, versions: JsonModel) -> Option<CapabilityModel> {
    match versions {
        JsonModel::Array(vs) => if vs.len() > 0 && vs[0] is Object {
            let e = vs[0]->Object_0;
            match obj_get(e, "schema"@) {
                Some(JsonModel::String(url)) => Some(
                    CapabilityModel {
                        name,
                        version: text_or_empty(obj_get(e, "version"@)),
                        schema_url: url,
                        extends: match obj_get(e, "extends"@) {
                            Some(JsonModel::String(p)) => Some(p),
                            _ => None,
                        },
                    },
                ),
                _ => None,
            }
        } else {
            None
        },
        _ => None,
    }
}

/// The capabilities of the entries of `c` from index `i` on, in order,
/// appended to `acc`; entries that describe none are passed over.
pub open spec fn capabilities_from(
    c: Seq<(Seq<char>, JsonModel)>,
    i: nat,
    acc: Seq<CapabilityModel>,
) -> Seq<CapabilityModel>
    decreases c.len() - i,
{
    if i >= c.len() {
        acc
    } else {
        capabilities_from(
            c,
            i + 1,
            match capability_of(c[i as int].0, c[i as int].1) {
                Some(cap) => acc.push(cap),
                None => acc,
            },
        )
    }
}

/// The capabilities a payload advertises under `ucp.capabilities`, in order,
/// or `NoCapabilities` where there is none.
pub open spec fn extract_spec(payload: JsonModel) -> Result<Seq<CapabilityModel>, ComposeErrorModel> {
    match nested_get(payload, "ucp"@, "capabilities"@) {
        Some(JsonModel::Object(c)) => {
            let caps = capabilities_from(c, 0, Seq::empty());
            if caps.len() == 0 {
                Err(ComposeErrorModel::NoCapabilities)
            } else {
                Ok(caps)
            }
        },
        _ => Err(ComposeErrorModel::NoCapabilities),
    }
}

fn capability_from_entry(name: &String, versions: &Json) -> (r: Option<Capability>)
    ensures
        match r {
            Some(cap) => capability_of(name@, versions@) == Some(cap@),
            None => capability_of(name@, versions@) is None,
        },
{
    let vs = match versions {
        Json::Array(vs) => vs,
        _ => {
            return None;
        },
    };
    proof {
        lemma_array_view(*vs);
    }
    if vs.len() == 0 {
        return None;
    }
    let e = match &vs[0] {
        Json::Object(e) => e,
        _ => {
            return None;
        },
    };
    proof {
        lemma_object_view(*e);
    }
    let url = match get_entry(e, "schema") {
        Some(Json::String(url)) => url,
        _ => {
            return None;
        },
    };
    let extends = match get_entry(e, "extends") {
        Some(Json::String(p)) => Some(p.clone()),
        _ => None,
    };
    let version = str_or_empty(get_entry(e, "version")).to_owned();
    Some(Capability { name: name.clone(), version, schema_url: url.clone(), extends })
}

/// The capabilities a payload advertises under `ucp.capabilities`: for each
/// name, in order, the first version entry.
pub fn extract_capabilities(payload: &Json) -> (r: Result<Vec<Capability>, ComposeError>)
    ensures
        match r {
            Ok(caps) => extract_spec(payload@) == Ok::<Seq<CapabilityModel>, ComposeErrorModel>(
                caps_model(caps@),
            ),
            Err(e) => extract_spec(payload@) == Err::<Seq<CapabilityModel>, ComposeErrorModel>(e@),
        },
{
    let c = match nested_entry(payload, "ucp", "capabilities") {
        Some(Json::Object(c)) => c,
        _ => {
            return Err(ComposeError::NoCapabilities);
        },
    };
    proof {
        lemma_object_view(*c);
    }
    let ghost m = entries_model(c@);
    let mut caps: Vec<Capability> = Vec::new();
    assert(caps_model(caps@) =~= Seq::empty());
    let mut i: usize = 0;
    while i < c.len()
        invariant
            i <= c.len(),
            m == entries_model(c@),
            capabilities_from(m, 0, Seq::empty()) == capabilities_from(m, i as nat, caps_model(caps@)),
        decreases c.len() - i,
    {
        match capability_from_entry(&c[i].0, &c[i].1) {
            Some(cap) => {
                let ghost cm = cap@;
                let ghost before = caps@;
                caps.push(cap);
                assert(caps_model(caps@) =~= caps_model(before).push(cm));
            },
            None => {},
        }
        i += 1;
    }
    if caps.len() == 0 {
        return Err(ComposeError::NoCapabilities);
    }
    Ok(caps)
}

/// The names of the root capabilities (those that extend none) from index
/// `i` on, appended to `acc`.
pub open spec fn root_names_from(caps: Seq<CapabilityModel>, i: nat, acc: Seq<Seq<char>>) -> Seq<Seq<char>>
    decreases caps.len() - i,
{
    if i >= caps.len() {
        acc
    } else {
        root_names_from(
            caps,
            i + 1,
            if caps[i as int].extends is None {
                acc.push(caps[i as int].name)
            } else {
                acc
            },
        )
    }
}

/// The index of the first root capability from index `i` on.
pub open spec fn first_root(caps: Seq<CapabilityModel>, i: nat) -> int
    decreases caps.len() - i,
{
    if i >= caps.len() {
        -1
    } else if caps[i as int].extends is None {
        i as int
    } else {
        first_root(caps, i + 1)
    }
}

/// Whether some capability has the name `n`.
pub open spec fn has_capability(caps: Seq<CapabilityModel>, n: Seq<char>) -> bool {
    exists|j: int| 0 <= j < caps.len() && #[trigger] caps[j].name == n
}

/// The index of the first capability from index `i` on that extends a name
/// no capability has.
pub open spec fn first_orphan(caps: Seq<CapabilityModel>, i: nat) -> Option<int>
    decreases caps.len() - i,
{
    if i >= caps.len() {
        None
    } else if caps[i as int].extends matches Some(p) && !has_capability(caps, p) {
        Some(i as int)
    } else {
        first_orphan(caps, i + 1)
    }
}

/// The index of the one root capability, or why the capabilities do not form
/// a root with extensions: no root, several roots, or an unknown parent.
pub open spec fn plan_spec(caps: Seq<CapabilityModel>) -> Result<int, ComposeErrorModel> {
    let roots = root_names_from(caps, 0, Seq::empty());
    if roots.len() == 0 {
        Err(ComposeErrorModel::NoRoot)
    } else if roots.len() > 1 {
        Err(ComposeErrorModel::MultipleRoots { names: roots })
    } else {
        match first_orphan(caps, 0) {
            Some(j) => Err(
                ComposeErrorModel::UnknownParent {
                    name: caps[j].name,
                    parent: caps[j].extends.unwrap(),
                },
            ),
            None => Ok(first_root(caps, 0)),
        }
    }
}

/// The schemas of the extensions (all but the roots) from index `i` on, in
/// order, appended to `acc`.
pub open spec fn extension_schemas(
    caps: Seq<CapabilityModel>,
    schemas: Seq<JsonModel>,
    i: nat,
    acc: Seq<JsonModel>,
) -> Seq<JsonModel>
    decreases caps.len() - i,
{
    if i >= caps.len() {
        acc
    } else {
        extension_schemas(
            caps,
            schemas,
            i + 1,
            if caps[i as int].extends is Some {
                acc.push(schemas[i as int])
            } else {
                acc
            },
        )
    }
}

/// The composed schema: the root's schema where there is no extension, else
/// `{"allOf": [root, extensions in order]}`.
pub open spec fn compose_spec(caps: Seq<CapabilityModel>, schemas: Seq<JsonModel>, root: int) -> JsonModel {
    if caps.len() == 1 {
        schemas[root]
    } else {
        JsonModel::Object(
            seq![
                (
                    "allOf"@,
                    JsonModel::Array(
                        seq![schemas[root]] + extension_schemas(caps, schemas, 0, Seq::empty()),
                    ),
                ),
            ],
        )
    }
}

fn has_capability_exec(caps: &Vec<Capability>, n: &String) -> (r: bool)
    ensures
        r == has_capability(caps_model(caps@), n@),
{
    let ghost cm = caps_model(caps@);
    let mut i: usize = 0;
    while i < caps.len()
        invariant
            i <= caps.len(),
            cm == caps_model(caps@),
            forall|j: int| 0 <= j < i ==> #[trigger] cm[j].name != n@,
        decreases caps.len() - i,
    {
        if caps[i].name == *n {
            assert(cm[i as int].name == n@);
            return true;
        }
        i += 1;
    }
    false
}

/// Checks that the capabilities form one root with extensions whose parents
/// are advertised; gives the root's index.
pub fn check_composition(caps: &Vec<Capability>) -> (r: Result<usize, ComposeError>)
    ensures
        match r {
            Ok(root) => plan_spec(caps_model(caps@)) == Ok::<int, ComposeErrorModel>(root as int),
            Err(e) => plan_spec(caps_model(caps@)) == Err::<int, ComposeErrorModel>(e@),
        },
{
    let ghost cm = caps_model(caps@);
    let mut roots: Vec<String> = Vec::new();
    let mut root: usize = 0;
    let mut i: usize = 0;
    assert(Seq::new(roots@.len(), |j: int| roots@[j]@) =~= Seq::<Seq<char>>::empty());
    while i < caps.len()
        invariant
            i <= caps.len(),
            cm == caps_model(caps@),
            root_names_from(cm, 0, Seq::empty()) == root_names_from(
                cm,
                i as nat,
                Seq::new(roots@.len(), |j: int| roots@[j]@),
            ),
            roots@.len() > 0 ==> first_root(cm, 0) == root as int && root < i,
            roots@.len() == 0 ==> first_root(cm, 0) == first_root(cm, i as nat),
        decreases caps.len() - i,
    {
        if caps[i].extends.is_none() {
            if roots.len() == 0 {
                root = i;
            }
            let ghost before = roots@;
            roots.push(caps[i].name.clone());
            assert(Seq::new(roots@.len(), |j: int| roots@[j]@) =~= Seq::new(
                before.len(),
                |j: int| before[j]@,
            ).push(cm[i as int].name));
        }
        i += 1;
    }
    if roots.len() == 0 {
        return Err(ComposeError::NoRoot);
    }
    if roots.len() > 1 {
        return Err(ComposeError::MultipleRoots { names: roots });
    }
    assert(root_names_from(cm, 0, Seq::empty()).len() == 1);
    let mut j: usize = 0;
    while j < caps.len()
        invariant
            j <= caps.len(),
            cm == caps_model(caps@),
            root_names_from(cm, 0, Seq::empty()).len() == 1,
            first_root(cm, 0) == root as int,
            first_orphan(cm, 0) == first_orphan(cm, j as nat),
        decreases caps.len() - j,
    {
        match &caps[j].extends {
            Some(p) => {
                if !has_capability_exec(caps, p) {
                    return Err(
                        ComposeError::UnknownParent { name: caps[j].name.clone(), parent: p.clone() },
                    );
                }
            },
            None => {},
        }
        j += 1;
    }
    Ok(root)
}

/// Composes the schemas of `caps` (`schemas[i]` is the schema of `caps[i]`):
/// the root's schema where there is no extension, else an `allOf` of the
/// root's schema and the extensions' schemas, in order.
pub fn compose_schemas(caps: &Vec<Capability>, schemas: &Vec<Json>) -> (r: Result<Json, ComposeError>)
    requires
        schemas@.len() == caps@.len(),
    ensures
        match r {
            Ok(j) => plan_spec(caps_model(caps@)) is Ok && j@ == compose_spec(
                caps_model(caps@),
                items_model(schemas@),
                plan_spec(caps_model(caps@))->Ok_0,
            ),
            Err(e) => plan_spec(caps_model(caps@)) == Err::<int, ComposeErrorModel>(e@),
        },
{
    let root = match check_composition(caps) {
        Ok(root) => root,
        Err(e) => {
            return Err(e);
        },
    };
    let ghost cm = caps_model(caps@);
    let ghost sm = items_model(schemas@);
    proof {
        assert(plan_spec(cm) == Ok::<int, ComposeErrorModel>(root as int));
        assert(0 <= first_root(cm, 0) < cm.len()) by {
            lemma_first_root_bounds(cm, 0);
        }
    }
    if caps.len() == 1 {
        return Ok(schemas[root].deep_copy());
    }
    let mut branches: Vec<Json> = Vec::new();
    branches.push(schemas[root].deep_copy());
    let ghost goal = extension_schemas(cm, sm, 0, Seq::empty());
    let ghost mut acc: Seq<JsonModel> = Seq::empty();
    assert(items_model(branches@) =~= seq![sm[root as int]] + acc);
    let mut i: usize = 0;
    while i < caps.len()
        invariant
            i <= caps.len(),
            cm == caps_model(caps@),
            sm == items_model(schemas@),
            schemas@.len() == caps@.len(),
            root < caps@.len(),
            goal == extension_schemas(cm, sm, i as nat, acc),
            items_model(branches@) == seq![sm[root as int]] + acc,
        decreases caps.len() - i,
    {
        if caps[i].extends.is_some() {
            let c = schemas[i].deep_copy();
            let ghost before = branches@;
            branches.push(c);
            proof {
                acc = acc.push(sm[i as int]);
                assert(items_model(branches@) =~= items_model(before).push(sm[i as int]));
                assert(items_model(branches@) =~= seq![sm[root as int]] + acc);
            }
        }
        i += 1;
    }
    proof {
        lemma_array_view(branches);
    }
    let mut entries: Vec<(String, Json)> = Vec::new();
    let arr = Json::Array(branches);
    let ghost av = arr@;
    entries.push((String::from_str("allOf"), arr));
    proof {
        lemma_object_view(entries);
        assert(entries_model(entries@) =~= seq![("allOf"@, av)]);
    }
    Ok(Json::Object(entries))
}

proof fn lemma_first_root_bounds(caps: Seq<CapabilityModel>, i: nat)
    requires
        i <= caps.len(),
        root_names_from(caps, i, Seq::empty()).len() > 0,
    ensures
        i <= first_root(caps, i) < caps.len(),
    decreases caps.len() - i,
{
    if i < caps.len() && caps[i as int].extends is Some {
        lemma_first_root_bounds(caps, i + 1);
    }
}

proof fn lemma_extension_count(caps: Seq<CapabilityModel>, schemas: Seq<JsonModel>, i: nat, acc: Seq<JsonModel>)
    requires
        i <= caps.len(),
    ensures
        extension_schemas(caps, schemas, i, acc).len() + root_names_from(caps, i, Seq::empty()).len()
            == acc.len() + caps.len() - i,
    decreases caps.len() - i,
{
    if i < caps.len() {
        lemma_extension_count(
            caps,
            schemas,
            i + 1,
            if caps[i as int].extends is Some {
                acc.push(schemas[i as int])
            } else {
                acc
            },
        );
        lemma_root_names_shift(caps, i + 1, caps[i as int].name);
    }
}

proof fn lemma_root_names_shift(caps: Seq<CapabilityModel>, i: nat, n: Seq<char>)
    requires
        i <= caps.len(),
    ensures
        root_names_from(caps, i, seq![n]).len() == root_names_from(caps, i, Seq::empty()).len() + 1,
    decreases caps.len() - i,
{
    if i < caps.len() {
        lemma_root_names_acc(caps, i + 1, seq![n], Seq::empty(), caps[i as int]);
    }
}

proof fn lemma_root_names_acc(
    caps: Seq<CapabilityModel>,
    i: nat,
    a: Seq<Seq<char>>,
    b: Seq<Seq<char>>,
    c: CapabilityModel,
)
    requires
        i <= caps.len(),
        a.len() == b.len() + 1,
    ensures
        root_names_from(caps, i, if c.extends is None { a.push(c.name) } else { a }).len()
            == root_names_from(caps, i, if c.extends is None { b.push(c.name) } else { b }).len() + 1,
    decreases caps.len() - i,
{
    let a2 = if c.extends is None { a.push(c.name) } else { a };
    let b2 = if c.extends is None { b.push(c.name) } else { b };
    if i < caps.len() {
        lemma_root_names_acc(caps, i + 1, a2, b2, caps[i as int]);
    }
}

/// Composition never yields a singleton `allOf`: where the capabilities form
/// one root with extensions, the composed schema is the root's own schema
/// (no extension) or an `allOf` of every capability's schema, at least two.
pub proof fn lemma_compose_shape(caps: Seq<CapabilityModel>, schemas: Seq<JsonModel>)
    requires
        plan_spec(caps) is Ok,
        caps.len() > 1,
    ensures
        compose_spec(caps, schemas, plan_spec(caps)->Ok_0)->Object_0[0].1->Array_0.len() == caps.len(),
        caps.len() >= 2,
{
    lemma_extension_count(caps, schemas, 0, Seq::empty());
}

/// Whether `p` starts `s`.
pub open spec fn is_prefix(p: Seq<char>, s: Seq<char>) -> bool {
    p.len() <= s.len() && s.subrange(0, p.len() as int) == p
}

/// Where a capability's schema is loaded from: with both bases given and the
/// URL starting with the remote base, the local base followed by the rest of
/// the URL; else the URL itself.
pub open spec fn schema_location_spec(url: Seq<char>, local: Option<Seq<char>>, remote: Option<Seq<char>>) -> Seq<char> {
    if local is Some && remote is Some && is_prefix(remote->Some_0, url) {
        local->Some_0 + url.subrange(remote->Some_0.len() as int, url.len() as int)
    } else {
        url
    }
}

/// Whether `p` starts `s`.
pub fn starts_with(s: &str, p: &str) -> (r: bool)
    ensures
        r == is_prefix(p@, s@),
{
    let n = p.unicode_len();
    if n > s.unicode_len() {
        return false;
    }
    let mut i: usize = 0;
    while i < n
        invariant
            i <= n,
            n == p@.len(),
            n <= s@.len(),
            forall|j: int| 0 <= j < i ==> s@[j] == p@[j],
        decreases n - i,
    {
        if s.get_char(i) != p.get_char(i) {
            assert(s@.subrange(0, n as int)[i as int] != p@[i as int]);
            return false;
        }
        i += 1;
    }
    assert(s@.subrange(0, n as int) =~= p@);
    true
}

/// Where the schema at `url` is loaded from, given the local and remote bases.
pub fn schema_location(url: &str, local_base: Option<&str>, remote_base: Option<&str>) -> (r: String)
    ensures
        r@ == schema_location_spec(
            url@,
            match local_base {
                Some(l) => Some(l@),
                None => None,
            },
            match remote_base {
                Some(b) => Some(b@),
                None => None,
            },
        ),
{
    match (local_base, remote_base) {
        (Some(local), Some(remote)) => {
            if starts_with(url, remote) {
                let rest = url.substring_char(remote.unicode_len(), url.unicode_len());
                let mut s = local.to_owned();
                s.append(rest);
                s
            } else {
                url.to_owned()
            }
        },
        _ => url.to_owned(),
    }
}

/// `acc` followed by the names from index `i` on, each after a space.
pub open spec fn joined_names(names: Seq<Seq<char>>, i: nat, acc: Seq<char>) -> Seq<char>
    decreases names.len() - i,
{
    if i >= names.len() {
        acc
    } else {
        joined_names(names, i + 1, acc + " "@ + names[i as int])
    }
}

/// The text that describes a composition error.
pub open spec fn compose_message(e: ComposeErrorModel) -> Seq<char> {
    match e {
        ComposeErrorModel::NoCapabilities => "no capabilities found in payload"@,
        ComposeErrorModel::NoRoot => "no root capability: every capability extends another"@,
        ComposeErrorModel::MultipleRoots { names } => joined_names(
            names,
            0,
            "multiple root capabilities:"@,
        ),
        ComposeErrorModel::UnknownParent { name, parent } => "unknown parent \""@ + parent
            + "\" extended by capability \""@ + name + "\""@,
        ComposeErrorModel::FetchFailed { url, reason } => "failed to fetch schema "@ + url + ": "@
            + reason,
    }
}

impl ComposeError {
    /// The text that describes this error.
    pub fn message(&self) -> (r: String)
        ensures
            r@ == compose_message(self@),
    {
        match self {
            ComposeError::NoCapabilities => String::from_str("no capabilities found in payload"),
            ComposeError::NoRoot => String::from_str(
                "no root capability: every capability extends another",
            ),
            ComposeError::MultipleRoots { names } => {
                let ghost nm = Seq::new(names.len() as nat, |j: int| names@[j]@);
                let mut s = String::from_str("multiple root capabilities:");
                let mut i: usize = 0;
                while i < names.len()
                    invariant
                        i <= names.len(),
                        nm == Seq::new(names.len() as nat, |j: int| names@[j]@),
                        compose_message(self@) == joined_names(nm, i as nat, s@),
                    decreases names.len() - i,
                {
                    let ghost before = s@;
                    s.append(" ");
                    s.append(names[i].as_str());
                    assert(s@ =~= before + " "@ + nm[i as int]);
                    i += 1;
                }
                s
            },
            ComposeError::UnknownParent { name, parent } => {
                let mut s = String::from_str("unknown parent \"");
                s.append(parent.as_str());
                s.append("\" extended by capability \"");
                s.append(name.as_str());
                s.append("\"");
                s
            },
            ComposeError::FetchFailed { url, reason } => {
                let mut s = String::from_str("failed to fetch schema ");
                s.append(url.as_str());
                s.append(": ");
                s.append(reason.as_str());
                s
            },
        }
    }
}

/// The text after the last `.` of `s` from index `i` on, where the current
/// segment starts at `start`.
pub open spec fn last_segment_from(s: Seq<char>, i: nat, start: nat) -> Seq<char>
    decreases s.len() - i,
{
    if i >= s.len() {
        s.subrange(start as int, s.len() as int)
    } else if s[i as int] == '.' {
        last_segment_from(s, i + 1, i + 1)
    } else {
        last_segment_from(s, i + 1, start)
    }
}

/// A capability's short name: the last dot-separated segment of its name.
pub open spec fn short_name(name: Seq<char>) -> Seq<char> {
    last_segment_from(name, 0, 0)
}

/// The payload nested in a request envelope: the member named by the root
/// capability's short name, with that name; none where there is no root or
/// no such member.
pub open spec fn jsonrpc_payload_spec(envelope: JsonModel, caps: Seq<CapabilityModel>) -> Option<
    (JsonModel, Seq<char>),
> {
    let root = first_root(caps, 0);
    if 0 <= root < caps.len() && envelope is Object {
        let key = short_name(caps[root].name);
        match obj_get(envelope->Object_0, key) {
            Some(p) => Some((p, key)),
            None => None,
        }
    } else {
        None
    }
}

/// The short name of a capability: the text after the last `.` of its name.
pub fn capability_short_name(name: &str) -> (r: String)
    ensures
        r@ == short_name(name@),
{
    let n = name.unicode_len();
    let mut start: usize = 0;
    let mut i: usize = 0;
    while i < n
        invariant
            i <= n,
            n == name@.len(),
            start <= i,
            short_name(name@) == last_segment_from(name@, i as nat, start as nat),
        decreases n - i,
    {
        if name.get_char(i) == '.' {
            start = i + 1;
        }
        i += 1;
    }
    name.substring_char(start, n).to_owned()
}

/// The payload nested in a request envelope under the root capability's
/// short name, with that name.
pub fn extract_jsonrpc_payload<'a>(envelope: &'a Json, caps: &Vec<Capability>) -> (r: Option<
    (&'a Json, String),
>)
    ensures
        match r {
            Some((p, key)) => jsonrpc_payload_spec(envelope@, caps_model(caps@)) == Some((p@, key@)),
            None => jsonrpc_payload_spec(envelope@, caps_model(caps@)) is None,
        },
{
    let ghost cm = caps_model(caps@);
    let mut i: usize = 0;
    while i < caps.len() && caps[i].extends.is_some()
        invariant
            i <= caps.len(),
            cm == caps_model(caps@),
            first_root(cm, 0) == first_root(cm, i as nat),
        decreases caps.len() - i,
    {
        i += 1;
    }
    if i >= caps.len() {
        return None;
    }
    let key = capability_short_name(caps[i].name.as_str());
    match envelope {
        Json::Object(m) => {
            proof {
                lemma_object_view(*m);
            }
            match get_entry(m, key.as_str()) {
                Some(p) => Some((p, key)),
                None => None,
            }
        },
        _ => None,
    }
}

} // verus!
