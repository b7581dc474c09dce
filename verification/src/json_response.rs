//! The JSON envelope that every `--json` command answers with, and what the
//! library reads of JSON text.
use vstd::prelude::*;

use crate::text::views;

verus! {

/// A JSON value of `serde_json`, carried through unread.
#[verifier::external_type_specification]
#[verifier::external_body]
pub struct ExJsonValue(serde_json::Value);

/// The envelope schema version.
pub const JSON_SCHEMA_VERSION: u32 = 1;

/// The error part of a failed envelope.
#[derive(Debug)]
pub struct JsonError {
    pub message: String,
}

/// What a command prints with `--json`: the schema version, the command, its
/// success, its data (`None` is written as JSON `null`, which is what a
/// failure carries) and its error (none on success).
#[derive(Debug)]
pub struct JsonEnvelope {
    pub schema_version: u32,
    pub command: String,
    pub success: bool,
    pub data: Option<serde_json::Value>,
    pub error: Option<JsonError>,
}

impl JsonEnvelope {
    /// The envelope of a command that succeeded with `data`.
    pub fn success(command: &str, data: serde_json::Value) -> (e: JsonEnvelope)
        ensures
            e.schema_version == JSON_SCHEMA_VERSION,
            e.command@ == command@,
            e.success,
            e.data == Some(data),
            e.error is None,
    {
        JsonEnvelope {
            schema_version: JSON_SCHEMA_VERSION,
            command: String::from_str(command),
            success: true,
            data: Some(data),
            error: None,
        }
    }

    /// The envelope of a command that failed with `message`; its data is
    /// JSON `null`.
    pub fn failure(command: &str, message: &str) -> (e: JsonEnvelope)
        ensures
            e.schema_version == JSON_SCHEMA_VERSION,
            e.command@ == command@,
            !e.success,
            e.data is None,
            e.error matches Some(err) && err.message@ == message@,
    {
        JsonEnvelope {
            schema_version: JSON_SCHEMA_VERSION,
            command: String::from_str(command),
            success: false,
            data: None,
            error: Some(JsonError { message: String::from_str(message) }),
        }
    }
}

/// How `serde_json::from_str::<serde_json::Value>` reads `text`: `None` when
/// it is not JSON; otherwise the keys of the top-level object, in the order
/// the parsed map keeps them, or `None` when the value is not an object.
pub uninterp spec fn json_shape(text: Seq<char>) -> Option<Option<Seq<Seq<char>>>>;

/// The value `serde_json::from_str::<serde_json::Value>` reads from `text`,
/// when it reads one (objects are `BTreeMap`s, so the value holds no
/// seeded hasher).
pub uninterp spec fn json_value(text: Seq<char>) -> serde_json::Value;

/// The message of the error `serde_json::from_str::<serde_json::Value>`
/// gives for `text`, when it is not JSON (the error's `Display`).
pub uninterp spec fn json_error(text: Seq<char>) -> Seq<char>;

/// `serde_json::from_str::<serde_json::Value>`, the error rendered to its
/// message. Trusted: it succeeds exactly when `json_shape` says that the
/// text is JSON, with the value `json_value` names; otherwise it fails with
/// the message `json_error` names.
#[verifier::external_body]
pub(crate) fn parse_json_value(text: &str) -> (r: Result<serde_json::Value, String>)
    ensures
        match r {
            Ok(v) => json_shape(text@) is Some && v == json_value(text@),
            Err(m) => json_shape(text@) is None && m@ == json_error(text@),
        },
{
    serde_json::from_str::<serde_json::Value>(text).map_err(|err| err.to_string())
}

/// The keys of the top-level object of `text`, through
/// `serde_json::from_str::<serde_json::Value>` and the object's `keys`.
/// Trusted: the result is what `json_shape` names.
#[verifier::external_body]
pub(crate) fn json_object_keys(text: &str) -> (r: Option<Vec<String>>)
    ensures
        match r {
            Some(keys) => json_shape(text@) == Some(Some(views(keys@))),
            None => !(json_shape(text@) matches Some(Some(_))),
        },
{
    match serde_json::from_str::<serde_json::Value>(text) {
        Ok(serde_json::Value::Object(map)) => Some(map.keys().cloned().collect()),
        _ => None,
    }
}

} // verus!
