//! The demonstration handlers: each takes the typed values its extractor
//! produces and returns a `HandlerOutput`, with an exact statement of the
//! text or structure it builds.

use vstd::prelude::*;

verus! {

use crate::cookie::{cookie_pairs_spec, set_cookie_spec, CookieAttrs};
use crate::headers::{get_spec, insert_spec, HeaderSeq, Headers};
use crate::json::{JsonObject, JsonScalar, JsonVal};
use crate::respond::{out_view, CustomError, HandlerOutput, OutView, ResponseDescriptor};
use crate::strnum::{dec_int, i32_to_dec, u32_to_dec};

/// The text of the `user_info` handlers.
pub open spec fn fmt_user_info(id: int) -> Seq<char> {
    "user id: "@ + dec_int(id)
}

/// The text of the `person` handler.
pub open spec fn fmt_person(id: int, age: int) -> Seq<char> {
    "id: "@ + dec_int(id) + ", age: "@ + dec_int(age)
}

/// The text of the `path_req` and `query_req` handlers.
pub open spec fn fmt_some_request(a: Seq<char>, b: int, c: Seq<char>, d: int) -> Seq<char> {
    "a: "@ + a + ", b: "@ + dec_int(b) + ", c: "@ + c + ", d: "@ + dec_int(d)
}

/// The text of the `json_request` handler.
pub open spec fn fmt_some_request_json(a: Seq<char>, b: int, c: Seq<char>, d: int) -> Seq<char> {
    "a: "@ + a + ", b: "@ + dec_int(b) + ", c: "@ + c + ", d:"@ + dec_int(d)
}

/// The text of the `query_req2` handler, defaults applied: empty string for
/// `a` and `c`, `-1` for `b`, `0` for `d`.
pub open spec fn fmt_query_req2(
    a: Option<Seq<char>>,
    b: Option<i32>,
    c: Option<Seq<char>>,
    d: Option<u32>,
) -> Seq<char> {
    "a: "@ + (match a {
        Some(s) => s,
        None => Seq::<char>::empty(),
    }) + ", b: "@ + dec_int(
        match b {
            Some(v) => v as int,
            None => -1,
        },
    ) + ", c: "@ + (match c {
        Some(s) => s,
        None => Seq::<char>::empty(),
    }) + ", d: "@ + dec_int(
        match d {
            Some(v) => v as int,
            None => 0,
        },
    )
}

/// The text of the `form_request` handler, defaults applied as in
/// `fmt_query_req2`.
pub open spec fn fmt_form_request(
    a: Option<Seq<char>>,
    b: Option<i32>,
    c: Option<Seq<char>>,
    d: Option<u32>,
) -> Seq<char> {
    "a:"@ + (match a {
        Some(s) => s,
        None => Seq::<char>::empty(),
    }) + ",b:"@ + dec_int(
        match b {
            Some(v) => v as int,
            None => -1,
        },
    ) + ",c:"@ + (match c {
        Some(s) => s,
        None => Seq::<char>::empty(),
    }) + ",d:"@ + dec_int(
        match d {
            Some(v) => v as int,
            None => 0,
        },
    )
}

/// The text of the raw `query` handler: the pairs as `key=value`, joined
/// with `&`.
pub open spec fn fmt_pairs(ps: Seq<(Seq<char>, Seq<char>)>) -> Seq<char>
    decreases ps.len(),
{
    if ps.len() == 0 {
        Seq::<char>::empty()
    } else if ps.len() == 1 {
        ps[0].0 + seq!['='] + ps[0].1
    } else {
        ps[0].0 + seq!['='] + ps[0].1 + seq!['&'] + fmt_pairs(ps.skip(1))
    }
}

/// The text of the `get_all_header` handler: the entries as `name: value`,
/// joined with a line break.
pub open spec fn fmt_headers(hs: HeaderSeq) -> Seq<char>
    decreases hs.len(),
{
    if hs.len() == 0 {
        Seq::<char>::empty()
    } else if hs.len() == 1 {
        hs[0].0 + ": "@ + hs[0].1
    } else {
        hs[0].0 + ": "@ + hs[0].1 + seq!['\n'] + fmt_headers(hs.skip(1))
    }
}

/// The text of the `get_cookie` handler: the first nonempty `blog_url`
/// cookie value, or a fixed notice.
pub open spec fn get_cookie_text(hs: HeaderSeq) -> Seq<char> {
    match get_spec(hs, "cookie"@) {
        None => "cookie is empty"@,
        Some(cv) => if cv.len() == 0 {
            "cookie is empty"@
        } else {
            match crate::cookie::first_nonempty_value_spec(cookie_pairs_spec(cv), "blog_url"@) {
                Some(v) => v,
                None => "empty"@,
            }
        },
    }
}

/// Greets a single path-extracted integer.
pub fn user_info(id: i32) -> (r: HandlerOutput)
    ensures
        out_view(r) == OutView::Text(fmt_user_info(id as int)),
{
    let mut s = "user id: ".to_owned();
    let d = i32_to_dec(id);
    s.append(d.as_str());
    HandlerOutput::Text(s)
}

/// The same greeting as `user_info`, registered under a second route.
pub fn user_info_2(id: i32) -> (r: HandlerOutput)
    ensures
        out_view(r) == OutView::Text(fmt_user_info(id as int)),
{
    user_info(id)
}

/// Greets a pair of path-extracted integers.
pub fn person(id: i32, age: i32) -> (r: HandlerOutput)
    ensures
        out_view(r) == OutView::Text(fmt_person(id as int, age as int)),
{
    let mut s = "id: ".to_owned();
    let d1 = i32_to_dec(id);
    s.append(d1.as_str());
    s.append(", age: ");
    let d2 = i32_to_dec(age);
    s.append(d2.as_str());
    HandlerOutput::Text(s)
}

fn fmt_some_request_text(t: &crate::extract::SomeRequest, colon_space_d: bool) -> (r: String)
    ensures
        colon_space_d ==> r@ == fmt_some_request(t.a@, t.b as int, t.c@, t.d as int),
        !colon_space_d ==> r@ == fmt_some_request_json(t.a@, t.b as int, t.c@, t.d as int),
{
    let mut s = "a: ".to_owned();
    s.append(t.a.as_str());
    s.append(", b: ");
    let db = i32_to_dec(t.b);
    s.append(db.as_str());
    s.append(", c: ");
    s.append(t.c.as_str());
    if colon_space_d {
        s.append(", d: ");
    } else {
        s.append(", d:");
    }
    let dd = u32_to_dec(t.d);
    s.append(dd.as_str());
    s
}

/// Shows all four required fields extracted from path segments.
pub fn path_req(req: crate::extract::SomeRequest) -> (r: HandlerOutput)
    ensures
        out_view(r) == OutView::Text(fmt_some_request(req.a@, req.b as int, req.c@, req.d as int)),
{
    let s = fmt_some_request_text(&req, true);
    HandlerOutput::Text(s)
}

/// Shows all four required fields extracted from the query string.
pub fn query_req(args: crate::extract::SomeRequest) -> (r: HandlerOutput)
    ensures
        out_view(r) == OutView::Text(
            fmt_some_request(args.a@, args.b as int, args.c@, args.d as int),
        ),
{
    let s = fmt_some_request_text(&args, true);
    HandlerOutput::Text(s)
}

/// Shows the optional fields with their declared defaults applied.
pub fn query_req2(args: crate::extract::SomeRequest2) -> (r: HandlerOutput)
    ensures
        out_view(r) == OutView::Text(
            fmt_query_req2(
                crate::extract::opt_str_view(args.a),
                args.b,
                crate::extract::opt_str_view(args.c),
                args.d,
            ),
        ),
{
    let mut s = "a: ".to_owned();
    match &args.a {
        Some(v) => s.append(v.as_str()),
        None => (),
    }
    s.append(", b: ");
    let db = i32_to_dec(
        match args.b {
            Some(v) => v,
            None => -1,
        },
    );
    s.append(db.as_str());
    s.append(", c: ");
    match &args.c {
        Some(v) => s.append(v.as_str()),
        None => (),
    }
    s.append(", d: ");
    let dd = u32_to_dec(
        match args.d {
            Some(v) => v,
            None => 0,
        },
    );
    s.append(dd.as_str());
    proof {
        assert(s@ =~= fmt_query_req2(
            crate::extract::opt_str_view(args.a),
            args.b,
            crate::extract::opt_str_view(args.c),
            args.d,
        ));
    }
    HandlerOutput::Text(s)
}

/// The form counterpart of `query_req2`: the same fields, the same
/// defaults, a tighter format.
pub fn form_request(model: crate::extract::SomeRequest2) -> (r: HandlerOutput)
    ensures
        out_view(r) == OutView::Text(
            fmt_form_request(
                crate::extract::opt_str_view(model.a),
                model.b,
                crate::extract::opt_str_view(model.c),
                model.d,
            ),
        ),
{
    let mut s = "a:".to_owned();
    match &model.a {
        Some(v) => s.append(v.as_str()),
        None => (),
    }
    s.append(",b:");
    let db = i32_to_dec(
        match model.b {
            Some(v) => v,
            None => -1,
        },
    );
    s.append(db.as_str());
    s.append(",c:");
    match &model.c {
        Some(v) => s.append(v.as_str()),
        None => (),
    }
    s.append(",d:");
    let dd = u32_to_dec(
        match model.d {
            Some(v) => v,
            None => 0,
        },
    );
    s.append(dd.as_str());
    proof {
        assert(s@ =~= fmt_form_request(
            crate::extract::opt_str_view(model.a),
            model.b,
            crate::extract::opt_str_view(model.c),
            model.d,
        ));
    }
    HandlerOutput::Text(s)
}

fn fmt_pairs_from(ps: &Vec<(String, String)>, i: usize) -> (r: String)
    requires
        i <= ps@.len(),
    ensures
        r@ == fmt_pairs(crate::query::pair_views(ps@).skip(i as int)),
    decreases ps@.len() - i,
{
    let ghost tail = crate::query::pair_views(ps@).skip(i as int);
    proof {
        if i < ps@.len() {
            assert(tail[0] == (ps@[i as int].0@, ps@[i as int].1@));
            assert(tail.skip(1) =~= crate::query::pair_views(ps@).skip(i as int + 1));
        }
    }
    if i >= ps.len() {
        proof {
            assert(tail =~= Seq::<(Seq<char>, Seq<char>)>::empty());
        }
        String::new()
    } else {
        proof {
            reveal_strlit("=");
            reveal_strlit("&");
        }
        let mut s = ps[i].0.clone();
        s.append("=");
        s.append(ps[i].1.as_str());
        if i + 1 < ps.len() {
            s.append("&");
            let rest = fmt_pairs_from(ps, i + 1);
            s.append(rest.as_str());
            proof {
                assert("="@ =~= seq!['=']);
                assert("&"@ =~= seq!['&']);
                assert(s@ =~= fmt_pairs(tail));
            }
            s
        } else {
            proof {
                assert("="@ =~= seq!['=']);
                assert(s@ =~= fmt_pairs(tail));
            }
            s
        }
    }
}

/// The raw pass-through query handler: shows the whole decoded mapping.
pub fn query(params: &Vec<(String, String)>) -> (r: HandlerOutput)
    ensures
        out_view(r) == OutView::Text(fmt_pairs(crate::query::pair_views(params@))),
{
    let s = fmt_pairs_from(params, 0);
    proof {
        assert(crate::query::pair_views(params@).skip(0) =~= crate::query::pair_views(params@));
    }
    HandlerOutput::Text(s)
}

fn fmt_headers_from(hs: &Headers, i: usize) -> (r: String)
    requires
        i <= hs@.len(),
    ensures
        r@ == fmt_headers(hs@.skip(i as int)),
    decreases hs@.len() - i,
{
    let ghost tail = hs@.skip(i as int);
    proof {
        if i < hs@.len() {
            assert(tail[0] == hs@[i as int]);
            assert(tail.skip(1) =~= hs@.skip(i as int + 1));
        }
    }
    if i >= hs.len() {
        proof {
            assert(tail =~= Seq::<(Seq<char>, Seq<char>)>::empty());
        }
        String::new()
    } else {
        proof {
            reveal_strlit(": ");
            reveal_strlit("\n");
        }
        let (name, value) = hs.entry(i);
        let mut s = name;
        s.append(": ");
        s.append(value.as_str());
        if i + 1 < hs.len() {
            s.append("\n");
            let rest = fmt_headers_from(hs, i + 1);
            s.append(rest.as_str());
            proof {
                assert("\n"@ =~= seq!['\n']);
                assert(s@ =~= fmt_headers(tail));
            }
            s
        } else {
            proof {
                assert(s@ =~= fmt_headers(tail));
            }
            s
        }
    }
}

/// Shows all four required fields extracted from a JSON body.
pub fn json_request(model: crate::extract::SomeRequest) -> (r: HandlerOutput)
    ensures
        out_view(r) == OutView::Text(
            fmt_some_request_json(model.a@, model.b as int, model.c@, model.d as int),
        ),
{
    let s = fmt_some_request_text(&model, false);
    HandlerOutput::Text(s)
}

/// Shows the complete, unmodified header collection.
pub fn get_all_header(headers: &Headers) -> (r: HandlerOutput)
    ensures
        out_view(r) == OutView::Text(fmt_headers(headers@)),
{
    let s = fmt_headers_from(headers, 0);
    proof {
        assert(headers@.skip(0) =~= headers@);
    }
    HandlerOutput::Text(s)
}

/// Sets the demonstration cookie, points `Location` at the cookie reader,
/// and signals a redirect: a composition of the header mechanism with an
/// explicit status override.
pub fn set_cookie_and_redirect(headers: Headers) -> (r: HandlerOutput)
    ensures
        out_view(r) == OutView::WithStatusHeaders(
            302,
            insert_spec(
                insert_spec(
                    headers@,
                    "set-cookie"@,
                    set_cookie_spec("blog_url"@, "http://example/"@, None, None, false, false),
                ),
                "location"@,
                "/get_cookie"@,
            ),
            Box::new(OutView::Empty),
        ),
{
    let mut headers = headers;
    let attrs = CookieAttrs::none();
    let cookie = crate::cookie::set_cookie_value("blog_url", "http://example/", &attrs);
    headers.insert("set-cookie", cookie.as_str());
    headers.insert("location", "/get_cookie");
    let inner = HandlerOutput::Empty;
    proof {
        assert(out_view(inner) == OutView::Empty);
    }
    HandlerOutput::WithStatusHeaders(302, headers, Box::new(inner))
}

/// Reads the demonstration cookie back out of the `Cookie` header.
pub fn get_cookie(headers: &Headers) -> (r: HandlerOutput)
    ensures
        out_view(r) == OutView::WithStatus(
            200,
            Box::new(OutView::Text(get_cookie_text(headers@))),
        ),
{
    let text = match headers.get("cookie") {
        None => "cookie is empty".to_owned(),
        Some(cv) => {
            if cv.as_str().unicode_len() == 0 {
                "cookie is empty".to_owned()
            } else {
                let pairs = crate::cookie::cookie_pairs(cv.as_str());
                match crate::cookie::first_nonempty_value(&pairs, "blog_url") {
                    Some(v) => v,
                    None => "empty".to_owned(),
                }
            }
        },
    };
    let inner = HandlerOutput::Text(text);
    proof {
        assert(out_view(inner) == OutView::Text(get_cookie_text(headers@)));
    }
    HandlerOutput::WithStatus(200, Box::new(inner))
}

/// A fixed plain-text response.
pub fn plain_text() -> (r: HandlerOutput)
    ensures
        out_view(r) == OutView::Text("foo"@),
{
    HandlerOutput::Text("foo".to_owned())
}

/// Greets the request path itself.
pub fn plain_text_string(path: &str) -> (r: HandlerOutput)
    ensures
        out_view(r) == OutView::Text("Hi from "@ + path@),
{
    let mut s = "Hi from ".to_owned();
    s.append(path);
    HandlerOutput::Text(s)
}

/// A fixed byte response.
pub fn bytes() -> (r: HandlerOutput)
    ensures
        out_view(r) == OutView::Bytes(seq![1u8, 2u8, 3u8, 4u8]),
{
    let mut v: Vec<u8> = Vec::new();
    v.push(1);
    v.push(2);
    v.push(3);
    v.push(4);
    proof {
        assert(v@ =~= seq![1u8, 2u8, 3u8, 4u8]);
    }
    HandlerOutput::Bytes(v)
}

/// No value at all: an empty `200` response.
pub fn empty() -> (r: HandlerOutput)
    ensures
        out_view(r) == OutView::Empty,
{
    HandlerOutput::Empty
}

/// An empty response with an explicit status.
pub fn empty_with_status() -> (r: HandlerOutput)
    ensures
        out_view(r) == OutView::Status(404),
{
    HandlerOutput::Status(404)
}

/// A status override around a plain-text value.
pub fn with_status() -> (r: HandlerOutput)
    ensures
        out_view(r) == OutView::WithStatus(
            500,
            Box::new(OutView::Text("Something went wrong"@)),
        ),
{
    let inner = HandlerOutput::Text("Something went wrong".to_owned());
    proof {
        assert(out_view(inner) == OutView::Text("Something went wrong"@));
    }
    let b = Box::new(inner);
    proof {
        assert(out_view(*b) == OutView::Text("Something went wrong"@));
    }
    let r = HandlerOutput::WithStatus(500, b);
    proof {
        assert(out_view(r) == OutView::WithStatus(
            500,
            Box::new(OutView::Text("Something went wrong"@)),
        ));
    }
    r
}

fn x_foo_headers() -> (r: Headers)
    ensures
        r@ == seq![("x-foo"@, "foo"@)],
{
    let mut headers = Headers::new();
    headers.append("x-foo", "foo");
    proof {
        assert(headers@ =~= seq![("x-foo"@, "foo"@)]);
    }
    headers
}

/// A header override around a plain-text value.
pub fn with_headers() -> (r: HandlerOutput)
    ensures
        out_view(r) == OutView::WithHeaders(
            seq![("x-foo"@, "foo"@)],
            Box::new(OutView::Text("foo"@)),
        ),
{
    let headers = x_foo_headers();
    let inner = HandlerOutput::Text("foo".to_owned());
    proof {
        assert(out_view(inner) == OutView::Text("foo"@));
    }
    HandlerOutput::WithHeaders(headers, Box::new(inner))
}

/// Both overrides at once.
pub fn with_headers_and_status() -> (r: HandlerOutput)
    ensures
        out_view(r) == OutView::WithStatusHeaders(
            500,
            seq![("x-foo"@, "foo"@)],
            Box::new(OutView::Text("foo"@)),
        ),
{
    let headers = x_foo_headers();
    let inner = HandlerOutput::Text("foo".to_owned());
    proof {
        assert(out_view(inner) == OutView::Text("foo"@));
    }
    HandlerOutput::WithStatusHeaders(500, headers, Box::new(inner))
}

/// A fixed HTML response.
pub fn html() -> (r: HandlerOutput)
    ensures
        out_view(r) == OutView::Html("<h1>Hello, World!</h1>"@),
{
    HandlerOutput::Html("<h1>Hello, World!</h1>".to_owned())
}

/// A fixed structured response.
pub fn json() -> (r: HandlerOutput)
    ensures
        out_view(r) == OutView::Json(seq![("data"@, JsonVal::Int(42))]),
{
    let mut fields: Vec<(String, JsonScalar)> = Vec::new();
    fields.push(("data".to_owned(), JsonScalar::Int(42)));
    let o = JsonObject { fields };
    proof {
        assert(crate::json::obj_view(o) =~= seq![("data"@, JsonVal::Int(42))]);
    }
    HandlerOutput::Json(o)
}

/// A success result wrapping a plain-text value.
pub fn result() -> (r: HandlerOutput)
    ensures
        out_view(r) == OutView::FallibleOk(Box::new(OutView::Text("all good"@))),
{
    let inner = HandlerOutput::Text("all good".to_owned());
    proof {
        assert(out_view(inner) == OutView::Text("all good"@));
    }
    HandlerOutput::Fallible(Ok(Box::new(inner)))
}

/// A fully formed empty response, passed through unchanged.
pub fn response() -> (r: HandlerOutput)
    ensures
        out_view(r) == OutView::Raw(200, Seq::<(Seq<char>, Seq<char>)>::empty(), Seq::<u8>::empty()),
{
    let rd = ResponseDescriptor { status: 200, headers: Headers::new(), body: Vec::new() };
    proof {
        assert(rd.body@ =~= Seq::<u8>::empty());
    }
    HandlerOutput::Raw(rd)
}

/// A structured value a handler serializes: a short blog record.
pub struct Blog {
    pub title: String,
    pub author: String,
    pub summary: String,
}

impl Blog {
    /// The demonstration record the blog handlers return.
    pub fn sample() -> (r: Blog)
        ensures
            r.title@ == "axum笔记(2)-response"@,
            r.author@ == "菩提树下的杨过"@,
            r.summary@ == "response各种示例"@,
    {
        Blog {
            title: "axum笔记(2)-response".to_owned(),
            author: "菩提树下的杨过".to_owned(),
            summary: "response各种示例".to_owned(),
        }
    }

    /// This record as a flat JSON object, field for field.
    pub fn to_json(&self) -> (o: JsonObject)
        ensures
            crate::json::obj_view(o) == seq![
                ("title"@, JsonVal::Str(self.title@)),
                ("author"@, JsonVal::Str(self.author@)),
                ("summary"@, JsonVal::Str(self.summary@)),
            ],
    {
        let mut fields: Vec<(String, JsonScalar)> = Vec::new();
        fields.push(("title".to_owned(), JsonScalar::Str(self.title.clone())));
        fields.push(("author".to_owned(), JsonScalar::Str(self.author.clone())));
        fields.push(("summary".to_owned(), JsonScalar::Str(self.summary.clone())));
        let o = JsonObject { fields };
        proof {
            assert(crate::json::obj_view(o) =~= seq![
                ("title"@, JsonVal::Str(self.title@)),
                ("author"@, JsonVal::Str(self.author@)),
                ("summary"@, JsonVal::Str(self.summary@)),
            ]);
        }
        o
    }
}

/// The blog record as a structured response.
pub fn blog_struct() -> (r: HandlerOutput)
    ensures
        out_view(r) == OutView::Json(
            seq![
                ("title"@, JsonVal::Str("axum笔记(2)-response"@)),
                ("author"@, JsonVal::Str("菩提树下的杨过"@)),
                ("summary"@, JsonVal::Str("response各种示例"@)),
            ],
        ),
{
    let blog = Blog::sample();
    HandlerOutput::Json(blog.to_json())
}

/// The blog record with an explicit content-type override naming a charset.
pub fn blog_struct_cn() -> (r: HandlerOutput)
    ensures
        out_view(r) == OutView::WithHeaders(
            seq![("content-type"@, "application/json;charset=utf-8"@)],
            Box::new(
                OutView::Json(
                    seq![
                        ("title"@, JsonVal::Str("axum笔记(2)-response"@)),
                        ("author"@, JsonVal::Str("菩提树下的杨过"@)),
                        ("summary"@, JsonVal::Str("response各种示例"@)),
                    ],
                ),
            ),
        ),
{
    let blog = Blog::sample();
    let mut headers = Headers::new();
    headers.append("content-type", "application/json;charset=utf-8");
    proof {
        assert(headers@ =~= seq![("content-type"@, "application/json;charset=utf-8"@)]);
    }
    let inner = HandlerOutput::Json(blog.to_json());
    proof {
        assert(out_view(inner) == OutView::Json(
            seq![
                ("title"@, JsonVal::Str("axum笔记(2)-response"@)),
                ("author"@, JsonVal::Str("菩提树下的杨过"@)),
                ("summary"@, JsonVal::Str("response各种示例"@)),
            ],
        ));
    }
    HandlerOutput::WithHeaders(headers, Box::new(inner))
}

/// A failure result wrapping a domain error.
pub fn custom_error() -> (r: HandlerOutput)
    ensures
        out_view(r) == OutView::FallibleErr(Box::new(OutView::Error("Opps!"@))),
{
    let inner = HandlerOutput::Error(CustomError { msg: "Opps!".to_owned() });
    proof {
        assert(out_view(inner) == OutView::Error("Opps!"@));
    }
    HandlerOutput::Fallible(Err(Box::new(inner)))
}

/// The root handler.
pub fn hello() -> (r: HandlerOutput)
    ensures
        out_view(r) == OutView::Text("Hello, World!"@),
{
    HandlerOutput::Text("Hello, World!".to_owned())
}

} // verus!
