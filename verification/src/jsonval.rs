//! Trusted bindings to `serde_json` for inspecting untrusted JSON
//! payloads. Each extraction the logic reads is a function from the
//! raw bytes to a plain value, with a name for its result, so that the
//! callers' contracts can speak of exactly what the bytes carry; every
//! decision on the extracted values is made by verified code.
use vstd::prelude::*;

verus! {

/// Whether the bytes parse as a JSON document.
pub uninterp spec fn json_ok(b: Seq<u8>) -> bool;

/// Relies on `serde_json::from_slice::<Value>`: parsing is a function
/// of the bytes alone (it returns `Err` rather than panicking, also on
/// deep nesting).
#[verifier::external_body]
pub fn json_parses(b: &[u8]) -> (r: bool)
    ensures
        r == json_ok(b@),
{
    serde_json::from_slice::<serde_json::Value>(b).is_ok()
}

/// The string at the top-level `type` key, empty when the bytes are
/// not JSON or the key is missing or not a string.
pub uninterp spec fn event_type_of(b: Seq<u8>) -> Seq<char>;

/// Relies on `serde_json::from_slice::<Value>`, `Value::get` and
/// `Value::as_str` for the top-level `type` string.
#[verifier::external_body]
pub fn json_event_type(b: &[u8]) -> (r: String)
    ensures
        r@ == event_type_of(b@),
{
    let v: serde_json::Value = match serde_json::from_slice(b) {
        Ok(v) => v,
        Err(_) => return String::new(),
    };
    match v.get("type").and_then(|t| t.as_str()) {
        Some(s) => s.to_owned(),
        None => String::new(),
    }
}

/// Whether a `data.object` member exists.
pub uninterp spec fn has_object_of(b: Seq<u8>) -> bool;

/// Relies on `serde_json::from_slice::<Value>` and `Value::get` for
/// the presence of `data.object`.
#[verifier::external_body]
pub fn json_object_present(b: &[u8]) -> (r: bool)
    ensures
        r == has_object_of(b@),
{
    let v: serde_json::Value = match serde_json::from_slice(b) {
        Ok(v) => v,
        Err(_) => return false,
    };
    v.get("data").and_then(|d| d.get("object")).is_some()
}

/// The string at `data.object.id`, empty on any miss.
pub uninterp spec fn session_id_of(b: Seq<u8>) -> Seq<char>;

/// Relies on `serde_json::from_slice::<Value>`, `Value::get` and
/// `Value::as_str` for the `data.object.id` string.
#[verifier::external_body]
pub fn json_session_id(b: &[u8]) -> (r: String)
    ensures
        r@ == session_id_of(b@),
{
    let v: serde_json::Value = match serde_json::from_slice(b) {
        Ok(v) => v,
        Err(_) => return String::new(),
    };
    let o = v.get("data").and_then(|d| d.get("object"));
    match o.and_then(|o| o.get("id")).and_then(|s| s.as_str()) {
        Some(s) => s.to_owned(),
        None => String::new(),
    }
}

/// The integer at `data.object.amount_total`, zero on any miss.
pub uninterp spec fn amount_total_of(b: Seq<u8>) -> i64;

/// Relies on `serde_json::from_slice::<Value>`, `Value::get` and
/// `Value::as_i64` for the `data.object.amount_total` integer.
#[verifier::external_body]
pub fn json_amount_total(b: &[u8]) -> (r: i64)
    ensures
        r == amount_total_of(b@),
{
    let v: serde_json::Value = match serde_json::from_slice(b) {
        Ok(v) => v,
        Err(_) => return 0,
    };
    let o = v.get("data").and_then(|d| d.get("object"));
    o.and_then(|o| o.get("amount_total")).and_then(|n| n.as_i64()).unwrap_or(0)
}

/// The string at `data.object.currency`, `"usd"` on any miss.
pub uninterp spec fn currency_of(b: Seq<u8>) -> Seq<char>;

/// Relies on `serde_json::from_slice::<Value>`, `Value::get` and
/// `Value::as_str` for the `data.object.currency` string.
#[verifier::external_body]
pub fn json_currency(b: &[u8]) -> (r: String)
    ensures
        r@ == currency_of(b@),
{
    let v: serde_json::Value = match serde_json::from_slice(b) {
        Ok(v) => v,
        Err(_) => return "usd".to_owned(),
    };
    let o = v.get("data").and_then(|d| d.get("object"));
    match o.and_then(|o| o.get("currency")).and_then(|s| s.as_str()) {
        Some(s) => s.to_owned(),
        None => "usd".to_owned(),
    }
}

/// The string at `data.object.metadata.user_id`, empty on any miss.
pub uninterp spec fn meta_user_of(b: Seq<u8>) -> Seq<char>;

/// Relies on `serde_json::from_slice::<Value>`, `Value::get` and
/// `Value::as_str` for the `data.object.metadata.user_id` string.
#[verifier::external_body]
pub fn json_meta_user(b: &[u8]) -> (r: String)
    ensures
        r@ == meta_user_of(b@),
{
    let v: serde_json::Value = match serde_json::from_slice(b) {
        Ok(v) => v,
        Err(_) => return String::new(),
    };
    let m = v.get("data").and_then(|d| d.get("object")).and_then(|o| o.get("metadata"));
    match m.and_then(|m| m.get("user_id")).and_then(|s| s.as_str()) {
        Some(s) => s.to_owned(),
        None => String::new(),
    }
}

/// The string at `data.object.metadata.course_id`, empty on any miss.
pub uninterp spec fn meta_course_of(b: Seq<u8>) -> Seq<char>;

/// Relies on `serde_json::from_slice::<Value>`, `Value::get` and
/// `Value::as_str` for the `data.object.metadata.course_id` string.
#[verifier::external_body]
pub fn json_meta_course(b: &[u8]) -> (r: String)
    ensures
        r@ == meta_course_of(b@),
{
    let v: serde_json::Value = match serde_json::from_slice(b) {
        Ok(v) => v,
        Err(_) => return String::new(),
    };
    let m = v.get("data").and_then(|d| d.get("object")).and_then(|o| o.get("metadata"));
    match m.and_then(|m| m.get("course_id")).and_then(|s| s.as_str()) {
        Some(s) => s.to_owned(),
        None => String::new(),
    }
}

/// The string at the top-level `url` key, `None` when the bytes are
/// not JSON or the key is missing or not a string.
pub uninterp spec fn url_of(b: Seq<u8>) -> Option<Seq<char>>;

/// Relies on `serde_json::from_slice::<Value>`, `Value::get` and
/// `Value::as_str` for the top-level `url` string.
#[verifier::external_body]
pub fn json_url(b: &[u8]) -> (r: Option<String>)
    ensures
        r is Some <==> url_of(b@) is Some,
        r matches Some(s) ==> url_of(b@) matches Some(u) && s@ == u,
{
    let v: serde_json::Value = match serde_json::from_slice(b) {
        Ok(v) => v,
        Err(_) => return None,
    };
    v.get("url").and_then(|u| u.as_str()).map(|s| s.to_owned())
}

} // verus!
