//! Directions, visibilities, resolution options and transition records.
use vstd::prelude::*;

verus! {

/// Which side of an exchange a schema is resolved for.
#[derive(Clone, Copy, Debug, PartialEq, Eq, Structural)]
pub enum Direction {
    Request,
    Response,
}

/// The annotation key that a direction reads.
pub open spec fn annotation_key_of(d: Direction) -> Seq<char> {
    match d {
        Direction::Request => "ucp_request"@,
        Direction::Response => "ucp_response"@,
    }
}

/// Whether `k` is one of the two annotation keys.
pub open spec fn is_annotation_key(k: Seq<char>) -> bool {
    k == "ucp_request"@ || k == "ucp_response"@
}

impl Direction {
    /// The annotation key this direction reads: `ucp_request` or `ucp_response`.
    pub fn annotation_key(&self) -> (r: &'static str)
        ensures
            r@ == annotation_key_of(*self),
    {
        match self {
            Direction::Request => "ucp_request",
            Direction::Response => "ucp_response",
        }
    }
}

/// Whether an annotation key is one of the two annotation keys.
pub fn is_annotation(k: &str) -> (r: bool)
    ensures
        r == is_annotation_key(k@),
{
    crate::json::same_text(k, "ucp_request") || crate::json::same_text(k, "ucp_response")
}

/// What an annotation does to a property.
#[derive(Clone, Copy, Debug, PartialEq, Eq, Structural)]
pub enum Visibility {
    /// Keep the property; leave its `required` status as it is.
    Include,
    /// Keep the property and list it in `required`.
    Required,
    /// Keep the property and remove it from `required`.
    Optional,
    /// Remove the property and its `required` entry.
    Omit,
}

/// The visibility that a text names, if any.
pub open spec fn parse_visibility(s: Seq<char>) -> Option<Visibility> {
    if s == "include"@ {
        Some(Visibility::Include)
    } else if s == "required"@ {
        Some(Visibility::Required)
    } else if s == "optional"@ {
        Some(Visibility::Optional)
    } else if s == "omit"@ {
        Some(Visibility::Omit)
    } else {
        None
    }
}

/// The text that names a visibility.
pub open spec fn visibility_name(v: Visibility) -> Seq<char> {
    match v {
        Visibility::Include => "include"@,
        Visibility::Required => "required"@,
        Visibility::Optional => "optional"@,
        Visibility::Omit => "omit"@,
    }
}

impl Visibility {
    /// The visibility that `s` names: `include`, `required`, `optional` or `omit`.
    pub fn parse(s: &str) -> (r: Option<Visibility>)
        ensures
            r == parse_visibility(s@),
    {
        if crate::json::same_text(s, "include") {
            Some(Visibility::Include)
        } else if crate::json::same_text(s, "required") {
            Some(Visibility::Required)
        } else if crate::json::same_text(s, "optional") {
            Some(Visibility::Optional)
        } else if crate::json::same_text(s, "omit") {
            Some(Visibility::Omit)
        } else {
            None
        }
    }

    /// The text that names this visibility.
    pub fn as_str(&self) -> (r: &'static str)
        ensures
            r@ == visibility_name(*self),
    {
        match self {
            Visibility::Include => "include",
            Visibility::Required => "required",
            Visibility::Optional => "optional",
            Visibility::Omit => "omit",
        }
    }
}

/// Whether a transition from `from` to `to` is well formed: both name a
/// visibility, and they differ.
pub open spec fn valid_transition(from: Seq<char>, to: Seq<char>) -> bool {
    parse_visibility(from) is Some && parse_visibility(to) is Some && from != to
}

/// Checks that a transition from `from` to `to` is well formed.
pub fn is_valid_schema_transition(from: &str, to: &str) -> (r: bool)
    ensures
        r == valid_transition(from@, to@),
{
    Visibility::parse(from).is_some() && Visibility::parse(to).is_some() && !crate::json::same_text(
        from,
        to,
    )
}

/// What a text reads in lower case.
pub uninterp spec fn lower_of(s: Seq<char>) -> Seq<char>;

/// Relies on `str::to_lowercase`: the lower-case form depends on the
/// characters alone.
#[verifier::external_body]
fn lowercase(s: &str) -> (r: String)
    ensures
        r@ == lower_of(s@),
{
    s.to_lowercase()
}

/// The direction, operation and strictness a schema is resolved for.
pub struct ResolveOptions {
    pub direction: Direction,
    /// The operation, in lower case.
    pub operation: String,
    /// Whether object schemas are closed to unknown properties.
    pub strict: bool,
}

impl ResolveOptions {
    /// Options for `direction` and `operation`, not strict. The operation is
    /// kept in lower case, so that it matches without regard to case.
    pub fn new(direction: Direction, operation: &str) -> (r: ResolveOptions)
        ensures
            r.direction == direction,
            r.operation@ == lower_of(operation@),
            !r.strict,
    {
        ResolveOptions { direction, operation: lowercase(operation), strict: false }
    }

    /// These options with strictness set to `strict`.
    pub fn strict(self, strict: bool) -> (r: ResolveOptions)
        ensures
            r.direction == self.direction,
            r.operation@ == self.operation@,
            r.strict == strict,
    {
        ResolveOptions { direction: self.direction, operation: self.operation, strict }
    }
}

/// A declared change of a property's visibility.
#[derive(Clone, Debug)]
pub struct SchemaTransitionInfo {
    pub from: String,
    pub to: String,
    pub description: String,
}

/// The model of a [`SchemaTransitionInfo`].
pub struct TransitionModel {
    pub from: Seq<char>,
    pub to: Seq<char>,
    pub description: Seq<char>,
}

impl View for SchemaTransitionInfo {
    type V = TransitionModel;

    open spec fn view(&self) -> TransitionModel {
        TransitionModel { from: self.from@, to: self.to@, description: self.description@ }
    }
}

/// The model of an optional transition.
pub open spec fn transition_model(t: Option<SchemaTransitionInfo>) -> Option<TransitionModel> {
    match t {
        Some(i) => Some(i@),
        None => None,
    }
}

} // verus!
