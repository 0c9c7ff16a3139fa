//! The Responder: converts a handler's typed return value into a response
//! descriptor (status, headers, body bytes), applying the status and
//! content-type defaults of each value shape and the header-merge rule.

use vstd::prelude::*;

verus! {

use vstd::utf8::encode_utf8;
use crate::headers::{insert_spec, HeaderSeq, Headers};
use crate::json::{json_encode, json_encode_spec, obj_view, JsonObject, JsonVal};

/// The response as handed back to the caller: status code, header set in
/// order, body bytes.
pub struct ResponseDescriptor {
    pub status: u16,
    pub headers: Headers,
    pub body: Vec<u8>,
}

/// A domain error a handler may signal: mapped by the Responder to a
/// response of its own, never a crash.
pub struct CustomError {
    pub msg: String,
}

/// A handler's returned value: a closed set of shapes.
pub enum HandlerOutput {
    /// No value: an empty `200` response without a content-type.
    Empty,
    /// Plain text, `text/plain; charset=utf-8`.
    Text(String),
    /// An HTML page, `text/html`.
    Html(String),
    /// Raw bytes, `application/octet-stream`.
    Bytes(Vec<u8>),
    /// An empty response with the given status.
    Status(u16),
    /// A structured value, encoded as `application/json`.
    Json(JsonObject),
    /// A status override around another value.
    WithStatus(u16, Box<HandlerOutput>),
    /// A header set merged over another value's headers.
    WithHeaders(Headers, Box<HandlerOutput>),
    /// Both overrides at once: the status is chosen first and the headers
    /// never alter it.
    WithStatusHeaders(u16, Headers, Box<HandlerOutput>),
    /// Success or failure, each carrying its own response value.
    Fallible(Result<Box<HandlerOutput>, Box<HandlerOutput>>),
    /// A domain error.
    Error(CustomError),
    /// A fully formed response, passed through unchanged.
    Raw(ResponseDescriptor),
}

/// The mathematical value of a handler output.
pub enum OutView {
    Empty,
    Text(Seq<char>),
    Html(Seq<char>),
    Bytes(Seq<u8>),
    Status(int),
    Json(Seq<(Seq<char>, JsonVal)>),
    WithStatus(int, Box<OutView>),
    WithHeaders(HeaderSeq, Box<OutView>),
    WithStatusHeaders(int, HeaderSeq, Box<OutView>),
    FallibleOk(Box<OutView>),
    FallibleErr(Box<OutView>),
    Error(Seq<char>),
    Raw(int, HeaderSeq, Seq<u8>),
}

/// The mathematical value of a `HandlerOutput`.
pub open spec fn out_view(o: HandlerOutput) -> OutView
    decreases o,
{
    match o {
        HandlerOutput::Empty => OutView::Empty,
        HandlerOutput::Text(s) => OutView::Text(s@),
        HandlerOutput::Html(s) => OutView::Html(s@),
        HandlerOutput::Bytes(b) => OutView::Bytes(b@),
        HandlerOutput::Status(c) => OutView::Status(c as int),
        HandlerOutput::Json(ob) => OutView::Json(obj_view(ob)),
        HandlerOutput::WithStatus(c, inner) => OutView::WithStatus(
            c as int,
            Box::new(out_view(*inner)),
        ),
        HandlerOutput::WithHeaders(h, inner) => OutView::WithHeaders(
            h@,
            Box::new(out_view(*inner)),
        ),
        HandlerOutput::WithStatusHeaders(c, h, inner) => OutView::WithStatusHeaders(
            c as int,
            h@,
            Box::new(out_view(*inner)),
        ),
        HandlerOutput::Fallible(res) => match res {
            Ok(inner) => OutView::FallibleOk(Box::new(out_view(*inner))),
            Err(inner) => OutView::FallibleErr(Box::new(out_view(*inner))),
        },
        HandlerOutput::Error(e) => OutView::Error(e.msg@),
        HandlerOutput::Raw(rd) => OutView::Raw(rd.status as int, rd.headers@, rd.body@),
    }
}

/// The header-merge rule: each override entry is applied over the base in
/// order, replacing the first entry of the same case-insensitive name.
pub open spec fn merge_headers(base: HeaderSeq, over: HeaderSeq) -> HeaderSeq
    decreases over.len(),
{
    if over.len() == 0 {
        base
    } else {
        merge_headers(insert_spec(base, over[0].0, over[0].1), over.skip(1))
    }
}

/// What the Responder returns for each value shape: status, headers, body.
pub open spec fn respond_spec(o: OutView) -> (int, HeaderSeq, Seq<u8>)
    decreases o,
{
    match o {
        OutView::Empty => (200int, Seq::<(Seq<char>, Seq<char>)>::empty(), Seq::<u8>::empty()),
        OutView::Text(s) => (
            200int,
            seq![("content-type"@, "text/plain; charset=utf-8"@)],
            encode_utf8(s),
        ),
        OutView::Html(s) => (200int, seq![("content-type"@, "text/html"@)], encode_utf8(s)),
        OutView::Bytes(b) => (200int, seq![("content-type"@, "application/octet-stream"@)], b),
        OutView::Status(c) => (c, Seq::<(Seq<char>, Seq<char>)>::empty(), Seq::<u8>::empty()),
        OutView::Json(fs) => (
            200int,
            seq![("content-type"@, "application/json"@)],
            encode_utf8(json_encode_spec(fs)),
        ),
        OutView::WithStatus(c, inner) => {
            let r = respond_spec(*inner);
            (c, r.1, r.2)
        },
        OutView::WithHeaders(h, inner) => {
            let r = respond_spec(*inner);
            (r.0, merge_headers(r.1, h), r.2)
        },
        OutView::WithStatusHeaders(c, h, inner) => {
            let r = respond_spec(*inner);
            (c, merge_headers(r.1, h), r.2)
        },
        OutView::FallibleOk(inner) => respond_spec(*inner),
        OutView::FallibleErr(inner) => respond_spec(*inner),
        OutView::Error(msg) => (
            500int,
            seq![("content-type"@, "text/plain; charset=utf-8"@)],
            encode_utf8(msg),
        ),
        OutView::Raw(status, hs, body) => (status, hs, body),
    }
}

impl CustomError {
    /// The response a domain error maps to: its own status (500) and its
    /// message as a plain-text body.
    pub fn into_response(self) -> (r: ResponseDescriptor)
        ensures
            r.status == 500,
            r.headers@ == seq![("content-type"@, "text/plain; charset=utf-8"@)],
            r.body@ == encode_utf8(self.msg@),
    {
        let mut headers = Headers::new();
        headers.append("content-type", "text/plain; charset=utf-8");
        let body = self.msg.as_str().as_bytes_vec();
        proof {
            assert(headers@ =~= seq![("content-type"@, "text/plain; charset=utf-8"@)]);
        }
        ResponseDescriptor { status: 500, headers, body }
    }
}

fn with_content_type(value: &str) -> (r: Headers)
    ensures
        r@ == seq![("content-type"@, value@)],
{
    let mut headers = Headers::new();
    headers.append("content-type", value);
    proof {
        assert(headers@ =~= seq![("content-type"@, value@)]);
    }
    headers
}

/// Merges an override header set over a base, exactly as `merge_headers`
/// describes.
fn apply_headers(base: &mut Headers, over: &Headers)
    ensures
        final(base)@ == merge_headers(old(base)@, over@),
{
    let n = over.len();
    let mut i: usize = 0;
    proof {
        assert(over@.skip(0) =~= over@);
    }
    while i < n
        invariant
            i <= n,
            n == over@.len(),
            merge_headers(old(base)@, over@) == merge_headers(base@, over@.skip(i as int)),
        decreases n - i,
    {
        let ghost tail = over@.skip(i as int);
        proof {
            assert(tail[0] == over@[i as int]);
            assert(tail.skip(1) =~= over@.skip(i as int + 1));
        }
        let (name, value) = over.entry(i);
        base.insert(name.as_str(), value.as_str());
        i = i + 1;
    }
}

/// The Responder: converts a handler's returned value into a response
/// descriptor, exactly as `respond_spec` describes.
pub fn into_response(o: HandlerOutput) -> (r: ResponseDescriptor)
    ensures
        (r.status as int, r.headers@, r.body@) == respond_spec(out_view(o)),
    decreases o,
{
    match o {
        HandlerOutput::Empty => ResponseDescriptor {
            status: 200,
            headers: Headers::new(),
            body: Vec::new(),
        },
        HandlerOutput::Text(s) => {
            let headers = with_content_type("text/plain; charset=utf-8");
            let body = s.as_str().as_bytes_vec();
            ResponseDescriptor { status: 200, headers, body }
        },
        HandlerOutput::Html(s) => {
            let headers = with_content_type("text/html");
            let body = s.as_str().as_bytes_vec();
            ResponseDescriptor { status: 200, headers, body }
        },
        HandlerOutput::Bytes(b) => {
            let headers = with_content_type("application/octet-stream");
            ResponseDescriptor { status: 200, headers, body: b }
        },
        HandlerOutput::Status(c) => ResponseDescriptor {
            status: c,
            headers: Headers::new(),
            body: Vec::new(),
        },
        HandlerOutput::Json(ob) => {
            let headers = with_content_type("application/json");
            let doc = json_encode(&ob);
            let body = doc.as_str().as_bytes_vec();
            ResponseDescriptor { status: 200, headers, body }
        },
        HandlerOutput::WithStatus(c, inner) => {
            let mut r = into_response(*inner);
            r.status = c;
            r
        },
        HandlerOutput::WithHeaders(h, inner) => {
            let mut r = into_response(*inner);
            apply_headers(&mut r.headers, &h);
            r
        },
        HandlerOutput::WithStatusHeaders(c, h, inner) => {
            let mut r = into_response(*inner);
            r.status = c;
            apply_headers(&mut r.headers, &h);
            r
        },
        HandlerOutput::Fallible(res) => match res {
            Ok(inner) => into_response(*inner),
            Err(inner) => into_response(*inner),
        },
        HandlerOutput::Error(e) => e.into_response(),
        HandlerOutput::Raw(rd) => rd,
    }
}

} // verus!
