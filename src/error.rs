//! Errors of resolution.
use vstd::prelude::*;
use vstd::string::*;

verus! {

/// Why a schema could not be resolved.
#[derive(Clone, Debug)]
pub enum ResolveError {
    /// An annotation is neither a string nor an object.
    InvalidAnnotationType { path: String, actual: String },
    /// A visibility text is not one of `include`, `required`, `optional`, `omit`.
    UnknownVisibility { path: String, value: String },
    /// A transition lacks a description, or its states are not two distinct visibilities.
    InvalidSchemaTransition { path: String, message: String },
    /// Two `allOf` branches give one property different types.
    TypeConflict { path: String, base_type: String, ext_type: String },
    /// An `allOf` extension weakens a property that a base branch requires.
    MonotonicityViolation { path: String, field: String, base_status: String, attempted: String },
}

/// The model of a [`ResolveError`].
pub enum ResolveErrorModel {
    InvalidAnnotationType { path: Seq<char>, actual: Seq<char> },
    UnknownVisibility { path: Seq<char>, value: Seq<char> },
    InvalidSchemaTransition { path: Seq<char>, message: Seq<char> },
    TypeConflict { path: Seq<char>, base_type: Seq<char>, ext_type: Seq<char> },
    MonotonicityViolation {
        path: Seq<char>,
        field: Seq<char>,
        base_status: Seq<char>,
        attempted: Seq<char>,
    },
}

impl View for ResolveError {
    type V = ResolveErrorModel;

    open spec fn view(&self) -> ResolveErrorModel {
        match self {
            ResolveError::InvalidAnnotationType { path, actual } => {
                ResolveErrorModel::InvalidAnnotationType { path: path@, actual: actual@ }
            },
            ResolveError::UnknownVisibility { path, value } => {
                ResolveErrorModel::UnknownVisibility { path: path@, value: value@ }
            },
            ResolveError::InvalidSchemaTransition { path, message } => {
                ResolveErrorModel::InvalidSchemaTransition { path: path@, message: message@ }
            },
            ResolveError::TypeConflict { path, base_type, ext_type } => {
                ResolveErrorModel::TypeConflict {
                    path: path@,
                    base_type: base_type@,
                    ext_type: ext_type@,
                }
            },
            ResolveError::MonotonicityViolation { path, field, base_status, attempted } => {
                ResolveErrorModel::MonotonicityViolation {
                    path: path@,
                    field: field@,
                    base_status: base_status@,
                    attempted: attempted@,
                }
            },
        }
    }
}

/// The text that describes an error.
pub open spec fn error_message(e: ResolveErrorModel) -> Seq<char> {
    match e {
        ResolveErrorModel::InvalidAnnotationType { path, actual } => "invalid annotation type at "@
            + path + ": expected string or object, got "@ + actual,
        ResolveErrorModel::UnknownVisibility { path, value } => "unknown visibility \""@ + value
            + "\" at "@ + path,
        ResolveErrorModel::InvalidSchemaTransition { path, message } =>
            "invalid schema transition at "@ + path + ": "@ + message,
        ResolveErrorModel::TypeConflict { path, base_type, ext_type } => "type conflict at "@ + path
            + ": base declares "@ + base_type + ", extension declares "@ + ext_type,
        ResolveErrorModel::MonotonicityViolation { path, field, base_status, attempted } =>
            "monotonicity violation at "@ + path + ": field \""@ + field + "\" is "@ + base_status
            + " in the base schema and cannot become "@ + attempted,
    }
}

impl ResolveError {
    /// The exit code of a command that fails with this error: bad input.
    pub fn exit_code(&self) -> (r: i32)
        ensures
            r == 2,
    {
        2
    }

    /// The text that describes this error.
    pub fn message(&self) -> (r: String)
        ensures
            r@ == error_message(self@),
    {
        match self {
            ResolveError::InvalidAnnotationType { path, actual } => {
                let mut s = String::from_str("invalid annotation type at ");
                s.append(path.as_str());
                s.append(": expected string or object, got ");
                s.append(actual.as_str());
                s
            },
            ResolveError::UnknownVisibility { path, value } => {
                let mut s = String::from_str("unknown visibility \"");
                s.append(value.as_str());
                s.append("\" at ");
                s.append(path.as_str());
                s
            },
            ResolveError::InvalidSchemaTransition { path, message } => {
                let mut s = String::from_str("invalid schema transition at ");
                s.append(path.as_str());
                s.append(": ");
                s.append(message.as_str());
                s
            },
            ResolveError::TypeConflict { path, base_type, ext_type } => {
                let mut s = String::from_str("type conflict at ");
                s.append(path.as_str());
                s.append(": base declares ");
                s.append(base_type.as_str());
                s.append(", extension declares ");
                s.append(ext_type.as_str());
                s
            },
            ResolveError::MonotonicityViolation { path, field, base_status, attempted } => {
                let mut s = String::from_str("monotonicity violation at ");
                s.append(path.as_str());
                s.append(": field \"");
                s.append(field.as_str());
                s.append("\" is ");
                s.append(base_status.as_str());
                s.append(" in the base schema and cannot become ");
                s.append(attempted.as_str());
                s
            },
        }
    }
}

} // verus!
