//! The decisions of the command line: which direction to use, and how a
//! failure is reported.
use vstd::prelude::*;
use vstd::string::*;

use crate::compose::{compose_message, ComposeError, DetectedDirection};
use crate::error::{error_message, ResolveError};
use crate::json::{entries_model, items_model, lemma_array_view, lemma_object_view, Json, JsonModel};
use crate::types::Direction;

verus! {

/// What a command prints: a text for the error stream, a text for the
/// output stream, or a JSON document for the output stream.
#[derive(Debug)]
pub enum Report {
    Text(String),
    Output(String),
    Document(Json),
}

/// The model of a [`Report`].
pub enum ReportModel {
    Text(Seq<char>),
    Output(Seq<char>),
    Document(JsonModel),
}

impl View for Report {
    type V = ReportModel;

    open spec fn view(&self) -> ReportModel {
        match self {
            Report::Text(s) => ReportModel::Text(s@),
            Report::Output(s) => ReportModel::Output(s@),
            Report::Document(j) => ReportModel::Document(j@),
        }
    }
}

/// The report of the failure `msg`: `{"valid": false, "errors": [{"path": "",
/// "message": msg}]}` where JSON output is asked for, `Error: msg` otherwise.
pub open spec fn report_spec(json_output: bool, msg: Seq<char>) -> ReportModel {
    if json_output {
        ReportModel::Document(
            JsonModel::Object(
                seq![
                    ("valid"@, JsonModel::Bool(false)),
                    (
                        "errors"@,
                        JsonModel::Array(
                            seq![
                                JsonModel::Object(
                                    seq![
                                        ("path"@, JsonModel::String(Seq::empty())),
                                        ("message"@, JsonModel::String(msg)),
                                    ],
                                ),
                            ],
                        ),
                    ),
                ],
            ),
        )
    } else {
        ReportModel::Text("Error: "@ + msg)
    }
}

/// The report of the failure `msg`, as text or as a JSON document.
pub fn report_error(json_output: bool, msg: &str) -> (r: Report)
    ensures
        r@ == report_spec(json_output, msg@),
{
    if json_output {
        let mut entry: Vec<(String, Json)> = Vec::new();
        let empty = "";
        proof {
            reveal_strlit("");
            assert(empty@ =~= Seq::<char>::empty());
        }
        entry.push((String::from_str("path"), Json::String(String::from_str(empty))));
        entry.push((String::from_str("message"), Json::String(msg.to_owned())));
        proof {
            lemma_object_view(entry);
            assert(entries_model(entry@) =~= seq![
                ("path"@, JsonModel::String(Seq::empty())),
                ("message"@, JsonModel::String(msg@)),
            ]);
        }
        let mut errors: Vec<Json> = Vec::new();
        let e = Json::Object(entry);
        let ghost ev = e@;
        errors.push(e);
        proof {
            lemma_array_view(errors);
            assert(items_model(errors@) =~= seq![ev]);
        }
        let mut doc: Vec<(String, Json)> = Vec::new();
        doc.push((String::from_str("valid"), Json::Bool(false)));
        let a = Json::Array(errors);
        let ghost av = a@;
        doc.push((String::from_str("errors"), a));
        proof {
            lemma_object_view(doc);
            assert(entries_model(doc@) =~= seq![("valid"@, JsonModel::Bool(false)), ("errors"@, av)]);
        }
        Report::Document(Json::Object(doc))
    } else {
        let mut s = String::from_str("Error: ");
        s.append(msg);
        Report::Text(s)
    }
}

/// The report of a resolution error and the exit code of the command.
pub fn cli_err(json_output: bool, e: &ResolveError) -> (r: (Report, u8))
    ensures
        r.0@ == report_spec(json_output, error_message(e@)),
        r.1 == 2,
{
    let msg = e.message();
    (report_error(json_output, msg.as_str()), e.exit_code() as u8)
}

/// The report of a resolution error met while doing `context`, and the exit
/// code of the command.
pub fn cli_err_ctx(json_output: bool, context: &str, e: &ResolveError) -> (r: (Report, u8))
    ensures
        r.0@ == report_spec(json_output, context@ + ": "@ + error_message(e@)),
        r.1 == 2,
{
    let mut msg = context.to_owned();
    msg.append(": ");
    let m = e.message();
    msg.append(m.as_str());
    (report_error(json_output, msg.as_str()), e.exit_code() as u8)
}

/// The direction of a command: an explicit `--request` or `--response` flag
/// first, then the direction inferred from the input, if any.
pub fn determine_direction(
    request_flag: bool,
    response_flag: bool,
    inferred: Option<Direction>,
) -> (r: Option<Direction>)
    ensures
        r == (if request_flag {
            Some(Direction::Request)
        } else if response_flag {
            Some(Direction::Response)
        } else {
            inferred
        }),
{
    if request_flag {
        Some(Direction::Request)
    } else if response_flag {
        Some(Direction::Response)
    } else {
        inferred
    }
}

/// The report of a composition error and the exit code of the command.
pub fn compose_err(json_output: bool, e: &ComposeError) -> (r: (Report, u8))
    ensures
        r.0@ == report_spec(json_output, compose_message(e@)),
        r.1 == (if e is FetchFailed {
            3u8
        } else {
            2u8
        }),
{
    let msg = e.message();
    (report_error(json_output, msg.as_str()), e.exit_code() as u8)
}

/// The message of a `bundle` flag given with payload input.
pub open spec fn bundle_with_payload_message() -> Seq<char> {
    "--bundle does not apply to payload input (schemas are auto-composed from capabilities). Remove --bundle, or pass a schema file instead of a payload."@
}

/// The message of schema base flags given with schema input.
pub open spec fn bases_with_schema_message() -> Seq<char> {
    "--schema-local-base/--schema-remote-base only apply to payload input. Remove these flags, or pass a self-describing payload instead of a schema file."@
}

/// The flag error of a `resolve` command, if any: `--bundle` applies to
/// schema input only, the schema base flags to payload input only.
pub fn resolve_flags_error(
    is_payload: bool,
    bundle: bool,
    has_local_base: bool,
    has_remote_base: bool,
) -> (r: Option<&'static str>)
    ensures
        match r {
            Some(m) => (is_payload && bundle && m@ == bundle_with_payload_message()) || (!is_payload
                && (has_local_base || has_remote_base) && m@ == bases_with_schema_message()),
            None => (is_payload ==> !bundle) && (!is_payload ==> !has_local_base && !has_remote_base),
        },
{
    if is_payload {
        if bundle {
            return Some(
                "--bundle does not apply to payload input (schemas are auto-composed from capabilities). Remove --bundle, or pass a schema file instead of a payload.",
            );
        }
    } else if has_local_base || has_remote_base {
        return Some(
            "--schema-local-base/--schema-remote-base only apply to payload input. Remove these flags, or pass a self-describing payload instead of a schema file.",
        );
    }
    None
}

/// How `validate` finds the schema of a payload.
#[derive(Clone, Copy, Debug, PartialEq, Eq, Structural)]
pub enum ValidateMode {
    /// `--profile`: the capabilities come from a profile; the payload is raw.
    Profile,
    /// `--schema`: the schema is given; the payload is raw.
    ExplicitSchema,
    /// The payload advertises `ucp.capabilities` and is validated whole.
    SelfDescribingResponse,
    /// The payload names `meta.profile`; the payload proper is nested in it.
    JsonRpcRequest,
}

/// The message of schema base flags given with `--schema`.
pub open spec fn bases_with_explicit_schema_message() -> Seq<char> {
    "--schema-local-base/--schema-remote-base do not apply with explicit --schema (composition is bypassed). Remove these flags, or remove --schema to use self-describing mode."@
}

/// The message of a payload whose direction cannot be inferred.
pub open spec fn no_direction_message() -> Seq<char> {
    "cannot infer direction: payload has no ucp.capabilities (response) or meta.profile (request). Use --schema, --profile, --request, or --response."@
}

/// The direction a detected payload implies.
pub open spec fn detected_direction(d: DetectedDirection) -> Direction {
    match d {
        DetectedDirection::Response => Direction::Response,
        DetectedDirection::Request => Direction::Request,
    }
}

/// The flags' direction, else `default`.
pub open spec fn direction_or(request: bool, response: bool, inferred: Option<Direction>, default: Direction) -> Direction {
    if request {
        Direction::Request
    } else if response {
        Direction::Response
    } else {
        match inferred {
            Some(d) => d,
            None => default,
        }
    }
}

/// The flag error of a `validate` command, if any: the schema base flags do
/// not apply with `--schema`.
pub fn validate_flags_error(has_schema: bool, has_local_base: bool, has_remote_base: bool) -> (r: Option<&'static str>)
    ensures
        match r {
            Some(m) => has_schema && (has_local_base || has_remote_base) && m@ == bases_with_explicit_schema_message(),
            None => !(has_schema && (has_local_base || has_remote_base)),
        },
{
    if has_schema && (has_local_base || has_remote_base) {
        Some(
            "--schema-local-base/--schema-remote-base do not apply with explicit --schema (composition is bypassed). Remove these flags, or remove --schema to use self-describing mode.",
        )
    } else {
        None
    }
}

/// The mode and direction of a `validate` command: `--profile` first (request
/// unless a flag says otherwise), then `--schema` (the flags, else the
/// payload's direction, else request), then the payload's own kind (the
/// flags, else its direction); an error for base flags given with `--schema`,
/// or for a payload of neither kind.
pub fn plan_validate(
    has_schema: bool,
    has_profile: bool,
    has_local_base: bool,
    has_remote_base: bool,
    request: bool,
    response: bool,
    detected: Option<DetectedDirection>,
) -> (r: Result<(ValidateMode, Direction), &'static str>)
    ensures
        has_schema && (has_local_base || has_remote_base) ==> r is Err && r->Err_0@
            == bases_with_explicit_schema_message(),
        !(has_schema && (has_local_base || has_remote_base)) ==> (if has_profile {
            r == Ok::<(ValidateMode, Direction), &'static str>(
                (ValidateMode::Profile, direction_or(request, response, None, Direction::Request)),
            )
        } else if has_schema {
            r == Ok::<(ValidateMode, Direction), &'static str>(
                (
                    ValidateMode::ExplicitSchema,
                    direction_or(
                        request,
                        response,
                        match detected {
                            Some(d) => Some(detected_direction(d)),
                            None => None,
                        },
                        Direction::Request,
                    ),
                ),
            )
        } else {
            match detected {
                Some(DetectedDirection::Response) => r == Ok::<(ValidateMode, Direction), &'static str>(
                    (
                        ValidateMode::SelfDescribingResponse,
                        direction_or(request, response, Some(Direction::Response), Direction::Response),
                    ),
                ),
                Some(DetectedDirection::Request) => r == Ok::<(ValidateMode, Direction), &'static str>(
                    (
                        ValidateMode::JsonRpcRequest,
                        direction_or(request, response, Some(Direction::Request), Direction::Request),
                    ),
                ),
                None => r is Err && r->Err_0@ == no_direction_message(),
            }
        }),
{
    if let Some(m) = validate_flags_error(has_schema, has_local_base, has_remote_base) {
        return Err(m);
    }
    if has_profile {
        let d = match determine_direction(request, response, None) {
            Some(d) => d,
            None => Direction::Request,
        };
        return Ok((ValidateMode::Profile, d));
    }
    if has_schema {
        let inferred = match detected {
            Some(d) => Some(d.direction()),
            None => None,
        };
        let d = match determine_direction(request, response, inferred) {
            Some(d) => d,
            None => Direction::Request,
        };
        return Ok((ValidateMode::ExplicitSchema, d));
    }
    match detected {
        Some(DetectedDirection::Response) => {
            let d = match determine_direction(request, response, Some(Direction::Response)) {
                Some(d) => d,
                None => Direction::Response,
            };
            Ok((ValidateMode::SelfDescribingResponse, d))
        },
        Some(DetectedDirection::Request) => {
            let d = match determine_direction(request, response, Some(Direction::Request)) {
                Some(d) => d,
                None => Direction::Request,
            };
            Ok((ValidateMode::JsonRpcRequest, d))
        },
        None => Err(
            "cannot infer direction: payload has no ucp.capabilities (response) or meta.profile (request). Use --schema, --profile, --request, or --response.",
        ),
    }
}

/// The models of (path, message) pairs.
pub open spec fn pairs_model(v: Seq<(String, String)>) -> Seq<(Seq<char>, Seq<char>)> {
    Seq::new(v.len(), |i: int| (v[i].0@, v[i].1@))
}

/// The JSON form of validation errors: `[{"path": p, "message": m}, ...]`.
pub open spec fn errors_json(errs: Seq<(Seq<char>, Seq<char>)>) -> JsonModel {
    JsonModel::Array(
        Seq::new(
            errs.len(),
            |i: int|
                JsonModel::Object(
                    seq![("path"@, JsonModel::String(errs[i].0)), ("message"@, JsonModel::String(errs[i].1))],
                ),
        ),
    )
}

/// `acc` followed by one line per error from index `i` on: two spaces, the
/// path, a colon and the message.
pub open spec fn error_lines(errs: Seq<(Seq<char>, Seq<char>)>, i: nat, acc: Seq<char>) -> Seq<char>
    decreases errs.len() - i,
{
    if i >= errs.len() {
        acc
    } else {
        error_lines(errs, i + 1, acc + "\n  "@ + errs[i as int].0 + ": "@ + errs[i as int].1)
    }
}

/// The report of a validation: `{"valid": true}` or `Valid` with code 0 when
/// there is no error; `{"valid": false, "errors": [...]}` or `Validation
/// failed:` with one line per error, and code 1, otherwise.
pub open spec fn validation_report_spec(json_output: bool, errors: Option<Seq<(Seq<char>, Seq<char>)>>) -> (ReportModel, u8) {
    match errors {
        None => if json_output {
            (ReportModel::Document(JsonModel::Object(seq![("valid"@, JsonModel::Bool(true))])), 0)
        } else {
            (ReportModel::Output("Valid"@), 0)
        },
        Some(errs) => if json_output {
            (
                ReportModel::Document(
                    JsonModel::Object(seq![("valid"@, JsonModel::Bool(false)), ("errors"@, errors_json(errs))]),
                ),
                1,
            )
        } else {
            (ReportModel::Text(error_lines(errs, 0, "Validation failed:"@)), 1)
        },
    }
}

/// The report and exit code of a validation; `errors` holds the (path,
/// message) pairs of the failures, or none where the payload is valid.
pub fn validation_report(json_output: bool, errors: Option<Vec<(String, String)>>) -> (r: (Report, u8))
    ensures
        (r.0@, r.1) == validation_report_spec(
            json_output,
            match errors {
                Some(e) => Some(pairs_model(e@)),
                None => None,
            },
        ),
{
    match errors {
        None => {
            if json_output {
                let mut doc: Vec<(String, Json)> = Vec::new();
                doc.push((String::from_str("valid"), Json::Bool(true)));
                proof {
                    lemma_object_view(doc);
                    assert(entries_model(doc@) =~= seq![("valid"@, JsonModel::Bool(true))]);
                }
                (Report::Document(Json::Object(doc)), 0)
            } else {
                (Report::Output(String::from_str("Valid")), 0)
            }
        },
        Some(errs) => {
            let ghost em = pairs_model(errs@);
            if json_output {
                let mut items: Vec<Json> = Vec::new();
                let mut i: usize = 0;
                while i < errs.len()
                    invariant
                        i <= errs.len(),
                        em == pairs_model(errs@),
                        items@.len() == i,
                        forall|j: int| 0 <= j < i ==> (#[trigger] items@[j])@ == errors_json(em)->Array_0[j],
                    decreases errs.len() - i,
                {
                    let mut e: Vec<(String, Json)> = Vec::new();
                    e.push((String::from_str("path"), Json::String(errs[i].0.clone())));
                    e.push((String::from_str("message"), Json::String(errs[i].1.clone())));
                    proof {
                        lemma_object_view(e);
                        assert(entries_model(e@) =~= errors_json(em)->Array_0[i as int]->Object_0);
                    }
                    items.push(Json::Object(e));
                    i += 1;
                }
                proof {
                    lemma_array_view(items);
                    assert(items_model(items@) =~= errors_json(em)->Array_0);
                }
                let arr = Json::Array(items);
                let ghost av = arr@;
                let mut doc: Vec<(String, Json)> = Vec::new();
                doc.push((String::from_str("valid"), Json::Bool(false)));
                doc.push((String::from_str("errors"), arr));
                proof {
                    lemma_object_view(doc);
                    assert(entries_model(doc@) =~= seq![("valid"@, JsonModel::Bool(false)), ("errors"@, av)]);
                }
                (Report::Document(Json::Object(doc)), 1)
            } else {
                let mut s = String::from_str("Validation failed:");
                let mut i: usize = 0;
                while i < errs.len()
                    invariant
                        i <= errs.len(),
                        em == pairs_model(errs@),
                        error_lines(em, 0, "Validation failed:"@) == error_lines(em, i as nat, s@),
                    decreases errs.len() - i,
                {
                    let ghost before = s@;
                    s.append("\n  ");
                    s.append(errs[i].0.as_str());
                    s.append(": ");
                    s.append(errs[i].1.as_str());
                    assert(s@ =~= before + "\n  "@ + em[i as int].0 + ": "@ + em[i as int].1);
                    i += 1;
                }
                (Report::Text(s), 1)
            }
        },
    }
}

} // verus!
