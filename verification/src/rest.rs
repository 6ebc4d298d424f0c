//! Requests to the REST interfaces of the platforms.

use crate::json::{json, Json};
use serde_json::Value;
use vstd::prelude::*;
use vstd::string::*;

verus! {

#[derive(PartialEq, Eq, Structural, Clone, Copy, Debug)]
pub enum Method {
    Get,
    Post,
    Put,
    Patch,
    Delete,
}

/// A request: its path below the interface's base, and its body.
pub struct Request {
    pub method: Method,
    pub path: String,
    pub body: Option<Value>,
}

/// What a [`Request`] holds.
pub struct RequestModel {
    pub method: Method,
    pub path: Seq<char>,
    pub body: Option<Json>,
}

/// The contents of a body.
pub open spec fn body_view(body: Option<Value>) -> Option<Json> {
    match body {
        Some(v) => Some(json(v)),
        None => None,
    }
}

impl View for Request {
    type V = RequestModel;

    open spec fn view(&self) -> RequestModel {
        RequestModel { method: self.method, path: self.path@, body: body_view(self.body) }
    }
}

/// The contents of each request in a list.
pub open spec fn requests_view(v: Seq<Request>) -> Seq<RequestModel> {
    v.map_values(|r: Request| r@)
}

/// A request that posts a body.
pub open spec fn post(path: Seq<char>, body: Json) -> RequestModel {
    RequestModel { method: Method::Post, path, body: Some(body) }
}

pub(crate) fn make_post(path: String, body: Value) -> (r: Request)
    ensures
        r@ == post(path@, json(body)),
{
    Request { method: Method::Post, path, body: Some(body) }
}

/// The parts of a text, one behind the other.
pub(crate) fn cat3(a: &str, b: &str, c: &str) -> (r: String)
    ensures
        r@ == a@ + b@ + c@,
{
    let mut r: String = a.to_owned();
    r.append(b);
    r.append(c);
    r
}

/// The parts of a text, one behind the other.
pub(crate) fn cat5(a: &str, b: &str, c: &str, d: &str, e: &str) -> (r: String)
    ensures
        r@ == a@ + b@ + c@ + d@ + e@,
{
    let mut r: String = a.to_owned();
    r.append(b);
    r.append(c);
    r.append(d);
    r.append(e);
    r
}

} // verus!
