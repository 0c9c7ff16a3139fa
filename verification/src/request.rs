//! The request as the core receives it: already parsed into method, path,
//! query string, headers and body bytes. The core borrows it for the
//! duration of one dispatch and never mutates it.

use vstd::prelude::*;

verus! {

use crate::headers::Headers;

/// The request methods the route table distinguishes.
#[derive(PartialEq, Eq, Structural, Clone, Copy, Debug)]
pub enum Method {
    Get,
    Post,
}

/// An incoming request: method, percent-encoded path, raw query string
/// (without the `?`), header collection, and body bytes.
pub struct RawRequest {
    pub method: Method,
    pub path: String,
    pub query: String,
    pub headers: Headers,
    pub body: Vec<u8>,
}

impl RawRequest {
    /// A request with no query string, no headers and no body.
    pub fn get(path: &str) -> (r: RawRequest)
        ensures
            r.method == Method::Get,
            r.path@ == path@,
            r.query@ == Seq::<char>::empty(),
            r.headers@ == crate::headers::HeaderSeq::empty(),
            r.body@ == Seq::<u8>::empty(),
    {
        let r = RawRequest {
            method: Method::Get,
            path: path.to_owned(),
            query: String::new(),
            headers: Headers::new(),
            body: Vec::new(),
        };
        proof {
            assert(r.body@ =~= Seq::<u8>::empty());
        }
        r
    }
}

} // verus!
