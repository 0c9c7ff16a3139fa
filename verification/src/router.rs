//! The Router: an immutable table mapping (method, path pattern) to a
//! handler, built once; dispatch matches the request path, runs the
//! handler's extractor chain, invokes the handler, and hands the result to
//! the Responder. No state survives a dispatch, and no route matches → a
//! terminal `404` without a handler ever running.

use vstd::prelude::*;

verus! {

use vstd::utf8::{decode_utf8, encode_utf8, valid_utf8};
use crate::extract::{
    decode_params_spec, form_extraction2_spec, match_path_spec, parse_pattern, pat_views,
    query_extraction2_spec, some_request_json_spec, some_request_spec, PatSeg,
};
use crate::handlers::{
    fmt_headers, fmt_pairs, fmt_person, fmt_query_req2, fmt_some_request, fmt_some_request_json,
    fmt_user_info, get_cookie_text,
};
use crate::headers::{insert_spec, HeaderSeq, Headers};
use crate::json::{json_encode_spec, vals_in_range, JsonVal};
use crate::query::{pair_views, parse_pairs_spec};
use crate::request::{Method, RawRequest};
use crate::respond::{into_response, respond_spec, OutView, ResponseDescriptor};
use crate::strnum::{parse_i32, parse_i32_spec};
use crate::strsplit::split_on;
use crate::cookie::set_cookie_spec;

/// Names the registered handlers: a closed set, one per route.
#[derive(PartialEq, Eq, Structural, Clone, Copy, Debug)]
pub enum HandlerId {
    Hello,
    UserInfo,
    UserInfo2,
    Person,
    PathReq,
    QueryReq,
    QueryReq2,
    QueryRaw,
    FormRequest,
    JsonRequest,
    GetAllHeader,
    SetCookieAndRedirect,
    GetCookie,
    PlainText,
    PlainTextString,
    BytesOut,
    EmptyOut,
    EmptyWithStatus,
    WithStatus,
    WithHeaders,
    WithHeadersAndStatus,
    Html,
    Json,
    ResultOut,
    Response,
    BlogStruct,
    BlogStructCn,
    CustomError,
}

/// One registered route: immutable once the table is built.
pub struct Route {
    pub method: Method,
    pub pattern: Vec<PatSeg>,
    pub handler: HandlerId,
}

/// The mathematical value of a route.
pub open spec fn route_view(r: Route) -> (Method, Seq<(bool, Seq<char>)>, HandlerId) {
    (r.method, pat_views(r.pattern@), r.handler)
}

/// The mathematical value of a route table.
pub open spec fn routes_view(rs: Seq<Route>) -> Seq<(Method, Seq<(bool, Seq<char>)>, HandlerId)> {
    rs.map_values(|r: Route| route_view(r))
}

/// The mathematical value of a request.
pub struct ReqView {
    pub method: Method,
    pub path: Seq<char>,
    pub query: Seq<char>,
    pub headers: HeaderSeq,
    pub body: Seq<u8>,
}

/// The mathematical value of a `RawRequest`.
pub open spec fn req_view(r: RawRequest) -> ReqView {
    ReqView {
        method: r.method,
        path: r.path@,
        query: r.query@,
        headers: r.headers@,
        body: r.body@,
    }
}

/// The first route whose method equals the request's and whose pattern
/// matches the request path, with the matched raw parameters.
pub open spec fn find_route_spec(
    rs: Seq<(Method, Seq<(bool, Seq<char>)>, HandlerId)>,
    method: Method,
    path: Seq<char>,
) -> Option<(HandlerId, Seq<(Seq<char>, Seq<char>)>)>
    decreases rs.len(),
{
    if rs.len() == 0 {
        None
    } else if rs[0].0 == method && match_path_spec(rs[0].1, split_on(path, '/')) is Some {
        match match_path_spec(rs[0].1, split_on(path, '/')) {
            Some(params) => Some((rs[0].2, params)),
            None => None,
        }
    } else {
        find_route_spec(rs.skip(1), method, path)
    }
}

/// The response for a request the table does not route, and for a request
/// an extractor rejects: an empty body under the error status.
pub open spec fn error_response(status: int) -> (int, HeaderSeq, Seq<u8>) {
    (status, Seq::<(Seq<char>, Seq<char>)>::empty(), Seq::<u8>::empty())
}

/// The response of the `json_request` route for a decoded document.
pub open spec fn json_request_response(fs: Seq<(Seq<char>, JsonVal)>) -> (int, HeaderSeq, Seq<u8>) {
    match some_request_json_spec(fs) {
        Ok(v) => respond_spec(OutView::Text(fmt_some_request_json(v.0, v.1, v.2, v.3))),
        Err(_) => error_response(400),
    }
}

/// What the `json_request` route returns: the body must be UTF-8 holding
/// one flat JSON document; a decode or extraction failure is the client
/// error, anything else runs the handler on the decoded fields.
pub open spec fn json_body_route(body: Seq<u8>) -> (int, HeaderSeq, Seq<u8>) {
    if !valid_utf8(body) {
        error_response(400)
    } else {
        match crate::json::json_parse_spec(decode_utf8(body)) {
            None => error_response(400),
            Some(fs) => json_request_response(fs),
        }
    }
}

/// What running a route returns: the handler's response, a function of the
/// matched parameters and the request alone.
pub open spec fn run_route_spec(
    h: HandlerId,
    params: Seq<(Seq<char>, Seq<char>)>,
    req: ReqView,
) -> (int, HeaderSeq, Seq<u8>) {
    match h {
        HandlerId::Hello => respond_spec(OutView::Text("Hello, World!"@)),
        HandlerId::UserInfo => one_i32_route(params),
        HandlerId::UserInfo2 => one_i32_route(params),
        HandlerId::Person => person_route(params),
        HandlerId::PathReq => path_req_route(params),
        HandlerId::QueryReq => query_req_route(req.query),
        HandlerId::QueryReq2 => query_req2_route(req.query),
        HandlerId::QueryRaw => query_raw_route(req.query),
        HandlerId::FormRequest => form_route(req.body),
        HandlerId::JsonRequest => json_body_route(req.body),
        HandlerId::GetAllHeader => respond_spec(OutView::Text(fmt_headers(req.headers))),
        HandlerId::SetCookieAndRedirect => respond_spec(
            OutView::WithStatusHeaders(
                302,
                insert_spec(
                    insert_spec(
                        req.headers,
                        "set-cookie"@,
                        set_cookie_spec("blog_url"@, "http://example/"@, None, None, false, false),
                    ),
                    "location"@,
                    "/get_cookie"@,
                ),
                Box::new(OutView::Empty),
            ),
        ),
        HandlerId::GetCookie => respond_spec(
            OutView::WithStatus(200, Box::new(OutView::Text(get_cookie_text(req.headers)))),
        ),
        HandlerId::PlainText => respond_spec(OutView::Text("foo"@)),
        HandlerId::PlainTextString => respond_spec(OutView::Text("Hi from "@ + req.path)),
        HandlerId::BytesOut => respond_spec(OutView::Bytes(seq![1u8, 2u8, 3u8, 4u8])),
        HandlerId::EmptyOut => respond_spec(OutView::Empty),
        HandlerId::EmptyWithStatus => respond_spec(OutView::Status(404)),
        HandlerId::WithStatus => respond_spec(
            OutView::WithStatus(500, Box::new(OutView::Text("Something went wrong"@))),
        ),
        HandlerId::WithHeaders => respond_spec(
            OutView::WithHeaders(
                seq![("x-foo"@, "foo"@)],
                Box::new(OutView::Text("foo"@)),
            ),
        ),
        HandlerId::WithHeadersAndStatus => respond_spec(
            OutView::WithStatusHeaders(
                500,
                seq![("x-foo"@, "foo"@)],
                Box::new(OutView::Text("foo"@)),
            ),
        ),
        HandlerId::Html => respond_spec(OutView::Html("<h1>Hello, World!</h1>"@)),
        HandlerId::Json => respond_spec(OutView::Json(seq![("data"@, JsonVal::Int(42))])),
        HandlerId::ResultOut => respond_spec(
            OutView::FallibleOk(Box::new(OutView::Text("all good"@))),
        ),
        HandlerId::Response => respond_spec(
            OutView::Raw(200, Seq::<(Seq<char>, Seq<char>)>::empty(), Seq::<u8>::empty()),
        ),
        HandlerId::BlogStruct => respond_spec(OutView::Json(blog_fields())),
        HandlerId::BlogStructCn => respond_spec(
            OutView::WithHeaders(
                seq![("content-type"@, "application/json;charset=utf-8"@)],
                Box::new(OutView::Json(blog_fields())),
            ),
        ),
        HandlerId::CustomError => respond_spec(
            OutView::FallibleErr(Box::new(OutView::Error("Opps!"@))),
        ),
    }
}

/// The demonstration blog record's fields.
pub open spec fn blog_fields() -> Seq<(Seq<char>, JsonVal)> {
    seq![
        ("title"@, JsonVal::Str("axum笔记(2)-response"@)),
        ("author"@, JsonVal::Str("菩提树下的杨过"@)),
        ("summary"@, JsonVal::Str("response各种示例"@)),
    ]
}

/// The routes taking one path-extracted integer.
pub open spec fn one_i32_route(params: Seq<(Seq<char>, Seq<char>)>) -> (int, HeaderSeq, Seq<u8>) {
    match decode_params_spec(params) {
        None => error_response(400),
        Some(ps) => if ps.len() != 1 {
            error_response(400)
        } else {
            match parse_i32_spec(ps[0].1) {
                None => error_response(400),
                Some(id) => respond_spec(OutView::Text(fmt_user_info(id as int))),
            }
        },
    }
}

/// The route taking two path-extracted integers.
pub open spec fn person_route(params: Seq<(Seq<char>, Seq<char>)>) -> (int, HeaderSeq, Seq<u8>) {
    match decode_params_spec(params) {
        None => error_response(400),
        Some(ps) => if ps.len() != 2 {
            error_response(400)
        } else {
            match (parse_i32_spec(ps[0].1), parse_i32_spec(ps[1].1)) {
                (Some(id), Some(age)) => respond_spec(
                    OutView::Text(fmt_person(id as int, age as int)),
                ),
                _ => error_response(400),
            }
        },
    }
}

/// The route extracting all four required fields from path segments.
pub open spec fn path_req_route(params: Seq<(Seq<char>, Seq<char>)>) -> (int, HeaderSeq, Seq<u8>) {
    match decode_params_spec(params) {
        None => error_response(400),
        Some(ps) => match some_request_spec(ps) {
            Ok(v) => respond_spec(OutView::Text(fmt_some_request(v.0, v.1, v.2, v.3))),
            Err(_) => error_response(400),
        },
    }
}

/// The route extracting all four required fields from the query string.
pub open spec fn query_req_route(query: Seq<char>) -> (int, HeaderSeq, Seq<u8>) {
    match parse_pairs_spec(query) {
        None => error_response(400),
        Some(ps) => match some_request_spec(ps) {
            Ok(v) => respond_spec(OutView::Text(fmt_some_request(v.0, v.1, v.2, v.3))),
            Err(_) => error_response(400),
        },
    }
}

/// The route extracting the all-optional target from the query string.
pub open spec fn query_req2_route(query: Seq<char>) -> (int, HeaderSeq, Seq<u8>) {
    match query_extraction2_spec(query) {
        Ok(v) => respond_spec(OutView::Text(fmt_query_req2(v.0, v.1, v.2, v.3))),
        Err(_) => error_response(400),
    }
}

/// The raw pass-through query route.
pub open spec fn query_raw_route(query: Seq<char>) -> (int, HeaderSeq, Seq<u8>) {
    match parse_pairs_spec(query) {
        None => error_response(400),
        Some(ps) => respond_spec(OutView::Text(fmt_pairs(ps))),
    }
}

/// The route extracting the all-optional target from a form body.
pub open spec fn form_route(body: Seq<u8>) -> (int, HeaderSeq, Seq<u8>) {
    match form_extraction2_spec(body) {
        Ok(v) => respond_spec(OutView::Text(crate::handlers::fmt_form_request(v.0, v.1, v.2, v.3))),
        Err(_) => error_response(400),
    }
}

/// What dispatch returns: `404` when no route matches, else the matched
/// route's response.
pub open spec fn dispatch_spec(
    rs: Seq<(Method, Seq<(bool, Seq<char>)>, HandlerId)>,
    req: ReqView,
) -> (int, HeaderSeq, Seq<u8>) {
    match find_route_spec(rs, req.method, req.path) {
        None => error_response(404),
        Some((h, params)) => run_route_spec(h, params, req),
    }
}

/// Law: dispatching is idempotent. The response is a function of the route
/// table and the request alone, so two dispatches of the same request
/// against the same table yield identical response descriptors.
pub proof fn lemma_dispatch_idempotent(
    rs: Seq<(Method, Seq<(bool, Seq<char>)>, HandlerId)>,
    req: ReqView,
    r1: (int, HeaderSeq, Seq<u8>),
    r2: (int, HeaderSeq, Seq<u8>),
)
    requires
        r1 == dispatch_spec(rs, req),
        r2 == dispatch_spec(rs, req),
    ensures
        r1 == r2,
{
}

/// The registered table: every demonstrated route, in registration order.
pub open spec fn the_routes() -> Seq<(Method, Seq<(bool, Seq<char>)>, HandlerId)> {
    seq![
        (Method::Get, crate::extract::pattern_of(split_on("/"@, '/')), HandlerId::Hello),
        (Method::Get, crate::extract::pattern_of(split_on("/user/:id"@, '/')), HandlerId::UserInfo),
        (
            Method::Get,
            crate::extract::pattern_of(split_on("/user2/:id"@, '/')),
            HandlerId::UserInfo2,
        ),
        (
            Method::Get,
            crate::extract::pattern_of(split_on("/person/:id/:age"@, '/')),
            HandlerId::Person,
        ),
        (
            Method::Get,
            crate::extract::pattern_of(split_on("/path_req/:a/:b/:c/:d"@, '/')),
            HandlerId::PathReq,
        ),
        (
            Method::Get,
            crate::extract::pattern_of(split_on("/query_req"@, '/')),
            HandlerId::QueryReq,
        ),
        (
            Method::Get,
            crate::extract::pattern_of(split_on("/query_req2"@, '/')),
            HandlerId::QueryReq2,
        ),
        (Method::Get, crate::extract::pattern_of(split_on("/query"@, '/')), HandlerId::QueryRaw),
        (
            Method::Post,
            crate::extract::pattern_of(split_on("/form"@, '/')),
            HandlerId::FormRequest,
        ),
        (
            Method::Post,
            crate::extract::pattern_of(split_on("/json"@, '/')),
            HandlerId::JsonRequest,
        ),
        (
            Method::Get,
            crate::extract::pattern_of(split_on("/header"@, '/')),
            HandlerId::GetAllHeader,
        ),
        (
            Method::Get,
            crate::extract::pattern_of(split_on("/set_cookie"@, '/')),
            HandlerId::SetCookieAndRedirect,
        ),
        (
            Method::Get,
            crate::extract::pattern_of(split_on("/get_cookie"@, '/')),
            HandlerId::GetCookie,
        ),
        (
            Method::Get,
            crate::extract::pattern_of(split_on("/plain_text"@, '/')),
            HandlerId::PlainText,
        ),
        (
            Method::Get,
            crate::extract::pattern_of(split_on("/plain_text_string"@, '/')),
            HandlerId::PlainTextString,
        ),
        (Method::Get, crate::extract::pattern_of(split_on("/bytes"@, '/')), HandlerId::BytesOut),
        (Method::Get, crate::extract::pattern_of(split_on("/empty"@, '/')), HandlerId::EmptyOut),
        (
            Method::Get,
            crate::extract::pattern_of(split_on("/empty_with_status"@, '/')),
            HandlerId::EmptyWithStatus,
        ),
        (
            Method::Get,
            crate::extract::pattern_of(split_on("/with_status"@, '/')),
            HandlerId::WithStatus,
        ),
        (
            Method::Get,
            crate::extract::pattern_of(split_on("/with_headers"@, '/')),
            HandlerId::WithHeaders,
        ),
        (
            Method::Get,
            crate::extract::pattern_of(split_on("/with_headers_and_status"@, '/')),
            HandlerId::WithHeadersAndStatus,
        ),
        (Method::Get, crate::extract::pattern_of(split_on("/html"@, '/')), HandlerId::Html),
        (Method::Get, crate::extract::pattern_of(split_on("/json"@, '/')), HandlerId::Json),
        (Method::Get, crate::extract::pattern_of(split_on("/result"@, '/')), HandlerId::ResultOut),
        (
            Method::Get,
            crate::extract::pattern_of(split_on("/response"@, '/')),
            HandlerId::Response,
        ),
        (Method::Get, crate::extract::pattern_of(split_on("/blog"@, '/')), HandlerId::BlogStruct),
        (
            Method::Get,
            crate::extract::pattern_of(split_on("/blog_cn"@, '/')),
            HandlerId::BlogStructCn,
        ),
        (
            Method::Get,
            crate::extract::pattern_of(split_on("/custom_error"@, '/')),
            HandlerId::CustomError,
        ),
    ]
}

fn mk_route(method: Method, pat: &str, handler: HandlerId) -> (r: Route)
    ensures
        route_view(r) == (method, crate::extract::pattern_of(split_on(pat@, '/')), handler),
{
    Route { method, pattern: parse_pattern(pat), handler }
}

/// Builds the route table, exactly `the_routes` in registration order.
pub fn get_router() -> (r: Vec<Route>)
    ensures
        routes_view(r@) == the_routes(),
{
    let mut v: Vec<Route> = Vec::new();
    v.push(mk_route(Method::Get, "/", HandlerId::Hello));
    v.push(mk_route(Method::Get, "/user/:id", HandlerId::UserInfo));
    v.push(mk_route(Method::Get, "/user2/:id", HandlerId::UserInfo2));
    v.push(mk_route(Method::Get, "/person/:id/:age", HandlerId::Person));
    v.push(mk_route(Method::Get, "/path_req/:a/:b/:c/:d", HandlerId::PathReq));
    v.push(mk_route(Method::Get, "/query_req", HandlerId::QueryReq));
    v.push(mk_route(Method::Get, "/query_req2", HandlerId::QueryReq2));
    v.push(mk_route(Method::Get, "/query", HandlerId::QueryRaw));
    v.push(mk_route(Method::Post, "/form", HandlerId::FormRequest));
    v.push(mk_route(Method::Post, "/json", HandlerId::JsonRequest));
    v.push(mk_route(Method::Get, "/header", HandlerId::GetAllHeader));
    v.push(mk_route(Method::Get, "/set_cookie", HandlerId::SetCookieAndRedirect));
    v.push(mk_route(Method::Get, "/get_cookie", HandlerId::GetCookie));
    v.push(mk_route(Method::Get, "/plain_text", HandlerId::PlainText));
    v.push(mk_route(Method::Get, "/plain_text_string", HandlerId::PlainTextString));
    v.push(mk_route(Method::Get, "/bytes", HandlerId::BytesOut));
    v.push(mk_route(Method::Get, "/empty", HandlerId::EmptyOut));
    v.push(mk_route(Method::Get, "/empty_with_status", HandlerId::EmptyWithStatus));
    v.push(mk_route(Method::Get, "/with_status", HandlerId::WithStatus));
    v.push(mk_route(Method::Get, "/with_headers", HandlerId::WithHeaders));
    v.push(mk_route(Method::Get, "/with_headers_and_status", HandlerId::WithHeadersAndStatus));
    v.push(mk_route(Method::Get, "/html", HandlerId::Html));
    v.push(mk_route(Method::Get, "/json", HandlerId::Json));
    v.push(mk_route(Method::Get, "/result", HandlerId::ResultOut));
    v.push(mk_route(Method::Get, "/response", HandlerId::Response));
    v.push(mk_route(Method::Get, "/blog", HandlerId::BlogStruct));
    v.push(mk_route(Method::Get, "/blog_cn", HandlerId::BlogStructCn));
    v.push(mk_route(Method::Get, "/custom_error", HandlerId::CustomError));
    proof {
        assert(routes_view(v@) =~= the_routes());
    }
    v
}

fn client_error() -> (r: ResponseDescriptor)
    ensures
        (r.status as int, r.headers@, r.body@) == error_response(400),
{
    let r = ResponseDescriptor { status: 400, headers: Headers::new(), body: Vec::new() };
    proof {
        assert(r.body@ =~= Seq::<u8>::empty());
    }
    r
}

fn not_found() -> (r: ResponseDescriptor)
    ensures
        (r.status as int, r.headers@, r.body@) == error_response(404),
{
    let r = ResponseDescriptor { status: 404, headers: Headers::new(), body: Vec::new() };
    proof {
        assert(r.body@ =~= Seq::<u8>::empty());
    }
    r
}

fn body_string(body: &Vec<u8>) -> (r: Option<String>)
    ensures
        r is Some <==> valid_utf8(body@),
        match r {
            Some(t) => t@ == decode_utf8(body@),
            None => true,
        },
{
    let n = body.len();
    let mut copy: Vec<u8> = Vec::new();
    let mut i: usize = 0;
    proof {
        assert(copy@ =~= body@.take(0));
    }
    while i < n
        invariant
            i <= n,
            n == body@.len(),
            copy@ == body@.take(i as int),
        decreases n - i,
    {
        copy.push(body[i]);
        proof {
            assert(copy@ =~= body@.take(i as int + 1));
        }
        i = i + 1;
    }
    proof {
        assert(body@.take(n as int) =~= body@);
    }
    crate::percent::string_from_utf8(copy)
}

/// Runs one matched route: the handler's extractor chain, the handler, and
/// the Responder, exactly as `run_route_spec` describes; an extraction
/// failure yields the client error without the handler running.
pub fn run_route(h: HandlerId, params: Vec<(String, String)>, req: &RawRequest) -> (r:
    ResponseDescriptor)
    ensures
        (r.status as int, r.headers@, r.body@) == run_route_spec(
            h,
            pair_views(params@),
            req_view(*req),
        ),
{
    match h {
        HandlerId::Hello => into_response(crate::handlers::hello()),
        HandlerId::UserInfo | HandlerId::UserInfo2 => {
            match crate::extract::decode_params(params) {
                None => client_error(),
                Some(ps) => {
                    if ps.len() != 1 {
                        client_error()
                    } else {
                        match parse_i32(ps[0].1.as_str()) {
                            None => {
                                proof {
                                    assert(pair_views(ps@)[0]
                                        == (ps@[0].0@, ps@[0].1@));
                                }
                                client_error()
                            },
                            Some(id) => {
                                proof {
                                    assert(pair_views(ps@)[0]
                                        == (ps@[0].0@, ps@[0].1@));
                                }
                                into_response(crate::handlers::user_info(id))
                            },
                        }
                    }
                },
            }
        },
        HandlerId::Person => {
            match crate::extract::decode_params(params) {
                None => client_error(),
                Some(ps) => {
                    if ps.len() != 2 {
                        client_error()
                    } else {
                        proof {
                            assert(pair_views(ps@)[0] == (ps@[0].0@, ps@[0].1@));
                            assert(pair_views(ps@)[1] == (ps@[1].0@, ps@[1].1@));
                        }
                        let gid = parse_i32(ps[0].1.as_str());
                        let gage = parse_i32(ps[1].1.as_str());
                        match (gid, gage) {
                            (Some(id), Some(age)) => into_response(
                                crate::handlers::person(id, age),
                            ),
                            _ => client_error(),
                        }
                    }
                },
            }
        },
        HandlerId::PathReq => {
            match crate::extract::decode_params(params) {
                None => client_error(),
                Some(ps) => {
                    match crate::extract::extract_some_request(&ps) {
                        Ok(t) => into_response(crate::handlers::path_req(t)),
                        Err(_) => client_error(),
                    }
                },
            }
        },
        HandlerId::QueryReq => {
            match crate::query::parse_pairs(req.query.as_str()) {
                None => client_error(),
                Some(ps) => {
                    match crate::extract::extract_some_request(&ps) {
                        Ok(t) => into_response(crate::handlers::query_req(t)),
                        Err(_) => client_error(),
                    }
                },
            }
        },
        HandlerId::QueryReq2 => {
            match crate::query::parse_pairs(req.query.as_str()) {
                None => client_error(),
                Some(ps) => {
                    match crate::extract::extract_some_request2(&ps) {
                        Ok(t) => into_response(crate::handlers::query_req2(t)),
                        Err(_) => client_error(),
                    }
                },
            }
        },
        HandlerId::QueryRaw => {
            match crate::query::parse_pairs(req.query.as_str()) {
                None => client_error(),
                Some(ps) => into_response(crate::handlers::query(&ps)),
            }
        },
        HandlerId::FormRequest => {
            match body_string(&req.body) {
                None => client_error(),
                Some(text) => {
                    match crate::query::parse_pairs(text.as_str()) {
                        None => client_error(),
                        Some(ps) => {
                            match crate::extract::extract_some_request2(&ps) {
                                Ok(t) => into_response(crate::handlers::form_request(t)),
                                Err(_) => client_error(),
                            }
                        },
                    }
                },
            }
        },
        HandlerId::JsonRequest => {
            match body_string(&req.body) {
                None => client_error(),
                Some(text) => {
                    match crate::json::json_decode(text.as_str()) {
                        None => client_error(),
                        Some(o) => {
                            match crate::extract::extract_some_request_json(&o) {
                                Ok(t) => into_response(crate::handlers::json_request(t)),
                                Err(_) => client_error(),
                            }
                        },
                    }
                },
            }
        },
        HandlerId::GetAllHeader => into_response(crate::handlers::get_all_header(&req.headers)),
        HandlerId::SetCookieAndRedirect => into_response(
            crate::handlers::set_cookie_and_redirect(req.headers.duplicate()),
        ),
        HandlerId::GetCookie => into_response(crate::handlers::get_cookie(&req.headers)),
        HandlerId::PlainText => into_response(crate::handlers::plain_text()),
        HandlerId::PlainTextString => into_response(
            crate::handlers::plain_text_string(req.path.as_str()),
        ),
        HandlerId::BytesOut => into_response(crate::handlers::bytes()),
        HandlerId::EmptyOut => into_response(crate::handlers::empty()),
        HandlerId::EmptyWithStatus => into_response(crate::handlers::empty_with_status()),
        HandlerId::WithStatus => into_response(crate::handlers::with_status()),
        HandlerId::WithHeaders => into_response(crate::handlers::with_headers()),
        HandlerId::WithHeadersAndStatus => into_response(
            crate::handlers::with_headers_and_status(),
        ),
        HandlerId::Html => into_response(crate::handlers::html()),
        HandlerId::Json => into_response(crate::handlers::json()),
        HandlerId::ResultOut => into_response(crate::handlers::result()),
        HandlerId::Response => into_response(crate::handlers::response()),
        HandlerId::BlogStruct => into_response(crate::handlers::blog_struct()),
        HandlerId::BlogStructCn => into_response(crate::handlers::blog_struct_cn()),
        HandlerId::CustomError => into_response(crate::handlers::custom_error()),
    }
}

/// Dispatches a request against the table: the first route whose method and
/// pattern match runs; no match is the terminal `404`. Exactly as
/// `dispatch_spec` describes.
pub fn dispatch(routes: &Vec<Route>, req: &RawRequest) -> (r: ResponseDescriptor)
    ensures
        (r.status as int, r.headers@, r.body@) == dispatch_spec(
            routes_view(routes@),
            req_view(*req),
        ),
{
    let ghost rv = routes_view(routes@);
    let n = routes.len();
    let mut i: usize = 0;
    proof {
        assert(rv.skip(0) =~= rv);
    }
    while i < n
        invariant
            i <= n,
            n == routes@.len(),
            rv == routes_view(routes@),
            rv.len() == n,
            find_route_spec(rv, req.method, req.path@) == find_route_spec(
                rv.skip(i as int),
                req.method,
                req.path@,
            ),
        decreases n - i,
    {
        let ghost tail = rv.skip(i as int);
        proof {
            assert(tail[0] == rv[i as int]);
            assert(rv[i as int] == route_view(routes@[i as int]));
            assert(tail.skip(1) =~= rv.skip(i as int + 1));
        }
        let route = &routes[i];
        if route.method == req.method {
            match crate::extract::match_path(&route.pattern, req.path.as_str()) {
                Some(params) => {
                    return run_route(route.handler, params, req);
                },
                None => {},
            }
        }
        i = i + 1;
    }
    proof {
        assert(rv.skip(n as int) =~= Seq::<(Method, Seq<(bool, Seq<char>)>, HandlerId)>::empty());
    }
    not_found()
}

/// Law (JSON round trip through dispatch): a request body holding the
/// encoder's output for a flat document makes the JSON route respond
/// exactly as the handler does on that document's fields.
pub proof fn lemma_json_route_round_trip(fs: Seq<(Seq<char>, JsonVal)>)
    requires
        vals_in_range(fs),
    ensures
        json_body_route(encode_utf8(json_encode_spec(fs))) == json_request_response(fs),
{
    vstd::utf8::encode_utf8_valid_utf8(json_encode_spec(fs));
    vstd::utf8::encode_utf8_decode_utf8(json_encode_spec(fs));
    crate::json::lemma_json_round_trip(fs);
}

/// Pairwise disjointness of a route table: any two distinct routes differ
/// in method, in segment count, or in a position where both are literals
/// that disagree.
pub open spec fn routes_disjoint(rs: Seq<(Method, Seq<(bool, Seq<char>)>, HandlerId)>) -> bool {
    forall|i: int, j: int|
        0 <= i < j < rs.len() ==> patterns_disjoint(#[trigger] rs[i], #[trigger] rs[j])
}

/// Two routes that no single request can both match.
pub open spec fn patterns_disjoint(
    a: (Method, Seq<(bool, Seq<char>)>, HandlerId),
    b: (Method, Seq<(bool, Seq<char>)>, HandlerId),
) -> bool {
    a.0 != b.0 || a.1.len() != b.1.len() || (exists|k: int|
        0 <= k < a.1.len() && !(#[trigger] a.1[k]).0 && !b.1[k].0 && a.1[k].1 != b.1[k].1)
}

proof fn lemma_match_literals(pat: Seq<(bool, Seq<char>)>, segs: Seq<Seq<char>>)
    requires
        match_path_spec(pat, segs) is Some,
    ensures
        pat.len() == segs.len(),
        forall|k: int| 0 <= k < pat.len() && !(#[trigger] pat[k]).0 ==> pat[k].1 == segs[k],
    decreases pat.len(),
{
    if pat.len() != 0 {
        lemma_match_literals(pat.skip(1), segs.skip(1));
        assert forall|k: int| 0 <= k < pat.len() && !(#[trigger] pat[k]).0 implies pat[k].1
            == segs[k] by {
            if k > 0 {
                assert(pat.skip(1)[k - 1] == pat[k]);
                assert(segs.skip(1)[k - 1] == segs[k]);
            }
        }
    }
}

/// Law: a request that some route matches is dispatched. `find_route_spec`
/// returns a handler whenever any route of the table agrees with the
/// request's method and matches its path.
pub proof fn lemma_find_route_finds(
    rs: Seq<(Method, Seq<(bool, Seq<char>)>, HandlerId)>,
    method: Method,
    path: Seq<char>,
    i: int,
)
    requires
        0 <= i < rs.len(),
        rs[i].0 == method,
        match_path_spec(rs[i].1, split_on(path, '/')) is Some,
    ensures
        find_route_spec(rs, method, path) is Some,
    decreases rs.len(),
{
    if !(rs[0].0 == method && match_path_spec(rs[0].1, split_on(path, '/')) is Some) {
        assert(i > 0);
        assert(rs.skip(1)[i - 1] == rs[i]);
        lemma_find_route_finds(rs.skip(1), method, path, i - 1);
    }
}

/// Law: a request dispatches to at most one handler. In a pairwise-disjoint
/// route table, no two distinct routes match the same method and path.
pub proof fn lemma_unique_route(
    rs: Seq<(Method, Seq<(bool, Seq<char>)>, HandlerId)>,
    method: Method,
    path: Seq<char>,
    i: int,
    j: int,
)
    requires
        routes_disjoint(rs),
        0 <= i < rs.len(),
        0 <= j < rs.len(),
        rs[i].0 == method,
        rs[j].0 == method,
        match_path_spec(rs[i].1, split_on(path, '/')) is Some,
        match_path_spec(rs[j].1, split_on(path, '/')) is Some,
    ensures
        i == j,
{
    if i != j {
        let (lo, hi) = if i < j {
            (i, j)
        } else {
            (j, i)
        };
        assert(patterns_disjoint(rs[lo], rs[hi]));
        lemma_match_literals(rs[i].1, split_on(path, '/'));
        lemma_match_literals(rs[j].1, split_on(path, '/'));
        let k = choose|k: int|
            0 <= k < rs[lo].1.len() && !(#[trigger] rs[lo].1[k]).0 && !rs[hi].1[k].0
                && rs[lo].1[k].1 != rs[hi].1[k].1;
        assert(rs[lo].1[k].1 == split_on(path, '/')[k]);
        assert(rs[hi].1[k].1 == split_on(path, '/')[k]);
    }
}

/// Law: the registered table is pairwise disjoint, so every request is
/// dispatched to at most one handler.
#[verifier::rlimit(100)]
pub proof fn lemma_the_routes_disjoint()
    ensures
        routes_disjoint(the_routes()),
{
    reveal_strlit("/");
    reveal_strlit("/user/:id");
    reveal_strlit("/user2/:id");
    reveal_strlit("/person/:id/:age");
    reveal_strlit("/path_req/:a/:b/:c/:d");
    reveal_strlit("/query_req");
    reveal_strlit("/query_req2");
    reveal_strlit("/query");
    reveal_strlit("/form");
    reveal_strlit("/json");
    reveal_strlit("/header");
    reveal_strlit("/set_cookie");
    reveal_strlit("/get_cookie");
    reveal_strlit("/plain_text");
    reveal_strlit("/plain_text_string");
    reveal_strlit("/bytes");
    reveal_strlit("/empty");
    reveal_strlit("/empty_with_status");
    reveal_strlit("/with_status");
    reveal_strlit("/with_headers");
    reveal_strlit("/with_headers_and_status");
    reveal_strlit("/html");
    reveal_strlit("/result");
    reveal_strlit("/response");
    reveal_strlit("/blog");
    reveal_strlit("/blog_cn");
    reveal_strlit("/custom_error");
    reveal_with_fuel(split_on, 30);
    let rs = the_routes();
    assert forall|i: int, j: int| 0 <= i < j < rs.len() implies patterns_disjoint(
        #[trigger] rs[i],
        #[trigger] rs[j],
    ) by {
        if rs[i].0 == rs[j].0 && rs[i].1.len() == rs[j].1.len() {
            assert(0 <= 1 < rs[i].1.len() && !rs[i].1[1].0 && !rs[j].1[1].0 && rs[i].1[1].1
                != rs[j].1[1].1);
        }
    }
}

} // verus!
