//! Error responses of the plugin's HTTP API.

use vstd::prelude::*;

use crate::host_api::HostApiError;
use crate::json::{json_bytes, json_text, jnum, jstr, member, parse_json, parsed_json, get_member, Json};
use crate::model::{str_json, u64_json};

verus! {

/// The error a failed host call answers with: 502, and a code telling the
/// panel's failure from the node's.
pub open spec fn host_error(err: HostApiError) -> ApiError {
    match err {
        HostApiError::Call(m) => ApiError { status: 502, code: "HOST_CALL_FAILED", message: m },
        HostApiError::Op(m) => ApiError { status: 502, code: "NODE_OPERATION_FAILED", message: m },
    }
}

impl From<HostApiError> for ApiError {
    fn from(err: HostApiError) -> (e: ApiError)
        ensures
            e == host_error(err),
    {
        ApiError::from_host(err)
    }
}

impl vstd::std_specs::convert::FromSpecImpl<HostApiError> for ApiError {
    open spec fn obeys_from_spec() -> bool {
        true
    }

    open spec fn from_spec(v: HostApiError) -> ApiError {
        host_error(v)
    }
}

/// An API failure: HTTP status, a stable machine-readable code and a message.
#[derive(Debug)]
pub struct ApiError {
    pub status: u16,
    pub code: &'static str,
    pub message: String,
}

impl ApiError {
    pub fn new(status: u16, code: &'static str, message: String) -> (e: ApiError)
        ensures
            e.status == status,
            e.code == code,
            e.message == message,
    {
        ApiError { status, code, message }
    }

    pub fn bad_request(message: String) -> (e: ApiError)
        ensures
            e.status == 400,
            e.code@ == "BAD_REQUEST"@,
            e.message == message,
    {
        ApiError::new(400, "BAD_REQUEST", message)
    }

    pub fn not_found(code: &'static str, message: String) -> (e: ApiError)
        ensures
            e.status == 404,
            e.code == code,
            e.message == message,
    {
        ApiError::new(404, code, message)
    }

    pub fn conflict(code: &'static str, message: String) -> (e: ApiError)
        ensures
            e.status == 409,
            e.code == code,
            e.message == message,
    {
        ApiError::new(409, code, message)
    }

    pub fn unprocessable(code: &'static str, message: String) -> (e: ApiError)
        ensures
            e.status == 422,
            e.code == code,
            e.message == message,
    {
        ApiError::new(422, code, message)
    }

    pub fn internal(message: String) -> (e: ApiError)
        ensures
            e.status == 500,
            e.code@ == "INTERNAL"@,
            e.message == message,
    {
        ApiError::new(500, "INTERNAL", message)
    }

    /// A failed host call: the panel or the node could not do what was asked.
    pub fn from_host(err: HostApiError) -> (e: ApiError)
        ensures
            e == host_error(err),
    {
        match err {
            HostApiError::Call(message) => ApiError::new(502, "HOST_CALL_FAILED", message),
            HostApiError::Op(message) => ApiError::new(502, "NODE_OPERATION_FAILED", message),
        }
    }

    /// The error as an HTTP response.
    pub fn into_response(self) -> (r: HttpResponse)
        ensures
            r.status == self.status,
            exists|j: Json| self.json_is(j) && r.body@ == json_text(j),
    {
        let body = self.to_json();
        let r = json_response(self.status, &body);
        assert(self.json_is(body) && r.body@ == json_text(body));
        r
    }

    /// Whether `j` is the error's JSON body: `code`, `error` (the message)
    /// and `status`, in this order.
    pub open spec fn json_is(&self, j: Json) -> bool {
        match j {
            Json::Object(m) => {
                &&& m@.len() == 3
                &&& m@[0].0@ == "code"@ && str_json(m@[0].1, self.code@)
                &&& m@[1].0@ == "error"@ && str_json(m@[1].1, self.message@)
                &&& m@[2].0@ == "status"@ && u64_json(m@[2].1, self.status as u64)
            },
            _ => false,
        }
    }

    /// The JSON body of the error response: `{"code": ..., "error": ..., "status": ...}`.
    pub fn to_json(&self) -> (j: Json)
        ensures
            self.json_is(j),
    {
        let mut members: Vec<(String, Json)> = Vec::new();
        members.push(("code".to_owned(), jstr(self.code)));
        members.push(("error".to_owned(), jstr(self.message.as_str())));
        members.push(("status".to_owned(), jnum(self.status as u64)));
        Json::Object(members)
    }
}

/// A response of the plugin's HTTP API: status and JSON body bytes.
#[derive(Debug)]
pub struct HttpResponse {
    pub status: u16,
    pub body: Vec<u8>,
}

pub type ApiResult = Result<HttpResponse, ApiError>;

/// A JSON response: the value written by `serde_json::to_vec`.
pub fn json_response(status: u16, body: &Json) -> (r: HttpResponse)
    ensures
        r.status == status,
        r.body@ == json_text(*body),
{
    HttpResponse { status, body: json_bytes(body) }
}

/// The members of a request body that is a JSON object.
pub open spec fn body_object(body: Seq<u8>) -> Option<Seq<(String, Json)>> {
    match parsed_json(body) {
        Some(Json::Object(m)) => Some(m@),
        _ => None,
    }
}

/// A string field.
pub open spec fn str_field(m: Seq<(String, Json)>, key: Seq<char>) -> Option<Seq<char>> {
    match member(m, key) {
        Some(Json::Str(s)) => Some(s@),
        _ => None,
    }
}

/// A boolean field; an absent one takes `default` (`None`: it is required).
pub open spec fn bool_field(m: Seq<(String, Json)>, key: Seq<char>, default: Option<bool>) -> Option<bool> {
    match member(m, key) {
        Some(Json::Bool(b)) => Some(b),
        None => default,
        _ => None,
    }
}

/// An optional string field: absent or `null` is `Some(None)`, a string is
/// `Some(Some(..))`, anything else is malformed (`None`).
pub open spec fn opt_str_field(m: Seq<(String, Json)>, key: Seq<char>) -> Option<Option<Seq<char>>> {
    match member(m, key) {
        None => Some(None),
        Some(Json::Null) => Some(None),
        Some(Json::Str(s)) => Some(Some(s@)),
        _ => None,
    }
}

/// The object members of a JSON request body; 400 when it is not one.
pub fn parse_object_body(body: &[u8]) -> (r: Result<Vec<(String, Json)>, ApiError>)
    ensures
        match body_object(body@) {
            Some(m) => r matches Ok(v) && v@ == m,
            None => r matches Err(e) && e.status == 400,
        },
{
    match parse_json(body) {
        Some(Json::Object(members)) => Ok(members),
        _ => Err(ApiError::bad_request(String::from_str("invalid request body: expected a JSON object"))),
    }
}

/// A required string field; 400 when it is missing or not a string.
pub fn req_str(m: &Vec<(String, Json)>, key: &str) -> (r: Result<String, ApiError>)
    ensures
        match str_field(m@, key@) {
            Some(s) => r matches Ok(v) && v@ == s,
            None => r matches Err(e) && e.status == 400,
        },
{
    match get_member(m, key) {
        Some(Json::Str(s)) => Ok(s.clone()),
        _ => Err(ApiError::bad_request(crate::text::cat3("invalid request body: ", key, " must be a string"))),
    }
}

/// A boolean field; 400 when it is malformed, or missing without a default.
pub fn req_bool(m: &Vec<(String, Json)>, key: &str, default: Option<bool>) -> (r: Result<bool, ApiError>)
    ensures
        match bool_field(m@, key@, default) {
            Some(b) => r == Ok::<bool, ApiError>(b),
            None => r matches Err(e) && e.status == 400,
        },
{
    match get_member(m, key) {
        Some(Json::Bool(b)) => Ok(*b),
        None => match default {
            Some(b) => Ok(b),
            None => Err(ApiError::bad_request(crate::text::cat3("invalid request body: ", key, " is required"))),
        },
        _ => Err(ApiError::bad_request(crate::text::cat3("invalid request body: ", key, " must be a boolean"))),
    }
}

/// An optional string field; 400 when it is neither absent, null nor a string.
pub fn opt_str(m: &Vec<(String, Json)>, key: &str) -> (r: Result<Option<String>, ApiError>)
    ensures
        match opt_str_field(m@, key@) {
            Some(Some(s)) => r matches Ok(Some(v)) && v@ == s,
            Some(None) => r matches Ok(None),
            None => r matches Err(e) && e.status == 400,
        },
{
    match get_member(m, key) {
        None => Ok(None),
        Some(Json::Null) => Ok(None),
        Some(Json::Str(s)) => Ok(Some(s.clone())),
        _ => Err(ApiError::bad_request(crate::text::cat3("invalid request body: ", key, " must be a string or null"))),
    }
}

} // verus!
