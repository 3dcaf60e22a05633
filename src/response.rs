use vstd::prelude::*;

verus! {

/// What a response carries besides its status.
#[derive(Debug, PartialEq, Eq)]
pub enum Body {
    Empty,
    Text(String),
    Binary(Vec<u8>),
}

/// A response: a status code and an optional body. Any other transport
/// metadata is left at its default by whoever sends it on.
#[derive(Debug, PartialEq, Eq)]
pub struct Response {
    pub status_code: i64,
    pub body: Option<Body>,
}

/// A response that has the given status and no body.
pub open spec fn is_bare(r: Response, status_code: int) -> bool {
    r.status_code == status_code && r.body is None
}

/// A response that has the given status and the given text as its body.
pub open spec fn is_text(r: Response, status_code: int, text: Seq<char>) -> bool {
    &&& r.status_code == status_code
    &&& match r.body {
        Some(Body::Text(t)) => t@ == text,
        _ => false,
    }
}

/// A response with the given status code and every other field empty.
pub fn status_code_response(status_code: i64) -> (r: Response)
    ensures
        is_bare(r, status_code as int),
{
    Response { status_code, body: None }
}

/// No content: status 204, no body.
pub fn no_content() -> (r: Response)
    ensures
        is_bare(r, 204),
{
    status_code_response(204)
}

/// Bad request: status 400, no body.
pub fn bad_request() -> (r: Response)
    ensures
        is_bare(r, 400),
{
    status_code_response(400)
}

/// Unauthorized: status 401, no body.
pub fn unauthorized() -> (r: Response)
    ensures
        is_bare(r, 401),
{
    status_code_response(401)
}

/// Forbidden: status 403, no body.
pub fn forbidden() -> (r: Response)
    ensures
        is_bare(r, 403),
{
    status_code_response(403)
}

/// Not found: status 404, no body.
pub fn not_found() -> (r: Response)
    ensures
        is_bare(r, 404),
{
    status_code_response(404)
}

/// Internal server error: status 500, no body.
pub fn internal_server_error() -> (r: Response)
    ensures
        is_bare(r, 500),
{
    status_code_response(500)
}

#[verifier::external_type_specification]
#[verifier::external_body]
pub struct ExJsonError(serde_json::Error);

/// A hexadecimal digit, lower case.
pub open spec fn hex_digit(n: u32) -> char {
    seq!['0', '1', '2', '3', '4', '5', '6', '7', '8', '9', 'a', 'b', 'c', 'd', 'e', 'f'][n as int]
}

/// How one character is written inside a JSON string: quote and backslash
/// behind a backslash, the usual short escapes, other control characters as
/// `\u00XX`, and everything else as it is.
pub open spec fn json_escape(c: char) -> Seq<char> {
    if c == '"' {
        seq!['\\', '"']
    } else if c == '\\' {
        seq!['\\', '\\']
    } else if c == '\x08' {
        seq!['\\', 'b']
    } else if c == '\t' {
        seq!['\\', 't']
    } else if c == '\n' {
        seq!['\\', 'n']
    } else if c == '\x0C' {
        seq!['\\', 'f']
    } else if c == '\r' {
        seq!['\\', 'r']
    } else if (c as u32) < 0x20 {
        seq!['\\', 'u', '0', '0', hex_digit(c as u32 / 16), hex_digit(c as u32 % 16)]
    } else {
        seq![c]
    }
}

/// The escaped characters of `s`, in order.
pub open spec fn json_escaped(s: Seq<char>) -> Seq<char>
    decreases s.len(),
{
    if s.len() == 0 {
        Seq::empty()
    } else {
        json_escaped(s.drop_last()) + json_escape(s.last())
    }
}

/// `s` as a JSON string.
pub open spec fn json_string(s: Seq<char>) -> Seq<char> {
    seq!['"'] + json_escaped(s) + seq!['"']
}

/// The compact JSON text of an object with the one entry `key: value`.
pub open spec fn json_object_text(key: Seq<char>, value: Seq<char>) -> Seq<char> {
    seq!['{'] + json_string(key) + seq![':'] + json_string(value) + seq!['}']
}

/// Relies on serde_json::to_string on a `Value::Object` holding one string
/// entry: the compact formatter writes `{`, the key and the value as escaped
/// JSON strings separated by `:`, then `}`; string keys and values cannot make
/// it fail.
#[verifier::external_body]
fn to_json_object(key: &str, value: &str) -> (r: Result<String, serde_json::Error>)
    ensures
        r is Ok,
        r matches Ok(t) ==> t@ == json_object_text(key@, value@),
{
    let mut object = serde_json::Map::new();
    object.insert(key.to_string(), serde_json::Value::String(value.to_string()));
    serde_json::to_string(&serde_json::Value::Object(object))
}

/// A response with the given status and `text` as its body.
pub fn text_response(status_code: i64, text: String) -> (r: Response)
    ensures
        is_text(r, status_code as int, text@),
{
    Response { status_code, body: Some(Body::Text(text)) }
}

/// The greeting answered on `/hello_world`: status 200 with the body
/// `{"message":"from service_a"}`.
pub fn hello_world() -> (r: Response)
    ensures
        is_text(r, 200, json_object_text("message"@, "from service_a"@)),
{
    match to_json_object("message", "from service_a") {
        Ok(text) => text_response(200, text),
        Err(_) => internal_server_error(),
    }
}

} // verus!
