use http_dispatch::extract::match_path;
use http_dispatch::headers::Headers;
use http_dispatch::request::{Method, RawRequest};
use http_dispatch::respond::ResponseDescriptor;
use http_dispatch::router::{dispatch, get_router};

fn get(path: &str, query: &str) -> RawRequest {
    RawRequest {
        method: Method::Get,
        path: path.to_string(),
        query: query.to_string(),
        headers: Headers::new(),
        body: Vec::new(),
    }
}

fn post(path: &str, body: &[u8]) -> RawRequest {
    RawRequest {
        method: Method::Post,
        path: path.to_string(),
        query: String::new(),
        headers: Headers::new(),
        body: body.to_vec(),
    }
}

fn body_text(r: &ResponseDescriptor) -> String {
    String::from_utf8(r.body.clone()).unwrap()
}

#[test]
fn root_route_greets() {
    let routes = get_router();
    let r = dispatch(&routes, &get("/", ""));
    assert_eq!(r.status, 200);
    assert_eq!(body_text(&r), "Hello, World!");
}

#[test]
fn path_extraction_decodes_two_integers() {
    let routes = get_router();
    let r = dispatch(&routes, &get("/person/123/30", ""));
    assert_eq!(r.status, 200);
    assert_eq!(body_text(&r), "id: 123, age: 30");
}

#[test]
fn path_extraction_rejects_bad_integer() {
    let routes = get_router();
    let r = dispatch(&routes, &get("/person/abc/30", ""));
    assert_eq!(r.status, 400);
    assert_eq!(r.body.len(), 0);
}

#[test]
fn path_segments_are_percent_decoded() {
    let routes = get_router();
    let r = dispatch(&routes, &get("/user/%31%32", ""));
    assert_eq!(r.status, 200);
    assert_eq!(body_text(&r), "user id: 12");
}

#[test]
fn bad_percent_escape_is_client_error() {
    let routes = get_router();
    let r = dispatch(&routes, &get("/user/%zz", ""));
    assert_eq!(r.status, 400);
}

#[test]
fn four_path_fields_fill_the_target() {
    let routes = get_router();
    let r = dispatch(&routes, &get("/path_req/a1/7/c1/9", ""));
    assert_eq!(r.status, 200);
    assert_eq!(body_text(&r), "a: a1, b: 7, c: c1, d: 9");
}

#[test]
fn query_defaulting_fills_absent_fields() {
    let routes = get_router();
    let r = dispatch(&routes, &get("/query_req2", "a=abc&d=123"));
    assert_eq!(r.status, 200);
    assert_eq!(body_text(&r), "a: abc, b: -1, c: , d: 123");
}

#[test]
fn query_required_fields_must_all_parse() {
    let routes = get_router();
    let ok = dispatch(&routes, &get("/query_req", "a=test&b=2&c=abc&d=80"));
    assert_eq!(ok.status, 200);
    assert_eq!(body_text(&ok), "a: test, b: 2, c: abc, d: 80");
    let missing = dispatch(&routes, &get("/query_req", "a=test&b=2&c=abc"));
    assert_eq!(missing.status, 400);
    let bad = dispatch(&routes, &get("/query_req", "a=test&b=x&c=abc&d=80"));
    assert_eq!(bad.status, 400);
}

#[test]
fn optional_field_present_but_unparsable_fails() {
    let routes = get_router();
    let r = dispatch(&routes, &get("/query_req2", "b=notanumber"));
    assert_eq!(r.status, 400);
}

#[test]
fn present_but_empty_value_decodes_as_empty_string() {
    let routes = get_router();
    let r = dispatch(&routes, &get("/query_req2", "a=&d=5"));
    assert_eq!(r.status, 200);
    assert_eq!(body_text(&r), "a: , b: -1, c: , d: 5");
}

#[test]
fn raw_query_mode_shows_every_pair() {
    let routes = get_router();
    let r = dispatch(&routes, &get("/query", "a=1&b=two&c=xxx"));
    assert_eq!(r.status, 200);
    assert_eq!(body_text(&r), "a=1&b=two&c=xxx");
}

#[test]
fn form_applies_the_same_rules_as_query() {
    let routes = get_router();
    let content = "a=abc&d=123";
    let form = dispatch(&routes, &post("/form", content.as_bytes()));
    assert_eq!(form.status, 200);
    assert_eq!(body_text(&form), "a:abc,b:-1,c:,d:123");
    let query = dispatch(&routes, &get("/query_req2", content));
    // same fields, same defaults, either path
    assert_eq!(body_text(&query), "a: abc, b: -1, c: , d: 123");
}

#[test]
fn form_decodes_plus_as_space() {
    let routes = get_router();
    let r = dispatch(&routes, &post("/form", b"a=hello+world&b=4"));
    assert_eq!(r.status, 200);
    assert_eq!(body_text(&r), "a:hello world,b:4,c:,d:0");
}

#[test]
fn json_body_round_trips_through_dispatch() {
    let routes = get_router();
    let r = dispatch(&routes, &post("/json", b"{\"a\":\"x\",\"b\":-5,\"c\":\"y\",\"d\":7}"));
    assert_eq!(r.status, 200);
    assert_eq!(body_text(&r), "a: x, b: -5, c: y, d:7");
}

#[test]
fn json_body_with_ordinary_formatting_is_accepted() {
    let routes = get_router();
    let r = dispatch(
        &routes,
        &post("/json", b"{ \"a\": \"x\", \"b\": -5, \"c\": \"y\", \"d\": 7 }"),
    );
    assert_eq!(r.status, 200);
    assert_eq!(body_text(&r), "a: x, b: -5, c: y, d:7");
}

#[test]
fn malformed_json_body_is_client_error() {
    let routes = get_router();
    let r = dispatch(&routes, &post("/json", b"{\"a\":\"x\""));
    assert_eq!(r.status, 400);
    let wrong_type = dispatch(&routes, &post("/json", b"{\"a\":1,\"b\":2,\"c\":\"y\",\"d\":3}"));
    assert_eq!(wrong_type.status, 400);
}

#[test]
fn header_route_shows_all_entries() {
    let routes = get_router();
    let mut req = get("/header", "");
    req.headers.append("host", "localhost");
    req.headers.append("accept", "*/*");
    let r = dispatch(&routes, &req);
    assert_eq!(r.status, 200);
    assert_eq!(body_text(&r), "host: localhost\naccept: */*");
}

#[test]
fn set_cookie_route_redirects_with_both_headers() {
    let routes = get_router();
    let r = dispatch(&routes, &get("/set_cookie", ""));
    assert_eq!(r.status, 302);
    assert_eq!(
        r.headers.get("set-cookie"),
        Some("blog_url=http://example/".to_string())
    );
    assert_eq!(r.headers.get("location"), Some("/get_cookie".to_string()));
    assert_eq!(r.body.len(), 0);
}

#[test]
fn get_cookie_route_reads_the_pair_back() {
    let routes = get_router();
    let mut req = get("/get_cookie", "");
    req.headers
        .append("cookie", "blog_url=http://example/; other=1");
    let r = dispatch(&routes, &req);
    assert_eq!(r.status, 200);
    assert_eq!(body_text(&r), "http://example/");
}

#[test]
fn get_cookie_route_without_header_reports_empty() {
    let routes = get_router();
    let r = dispatch(&routes, &get("/get_cookie", ""));
    assert_eq!(r.status, 200);
    assert_eq!(body_text(&r), "cookie is empty");
}

#[test]
fn get_cookie_skips_malformed_segments() {
    let routes = get_router();
    let mut req = get("/get_cookie", "");
    req.headers.append("cookie", "junk; blog_url=found");
    let r = dispatch(&routes, &req);
    assert_eq!(body_text(&r), "found");
}

#[test]
fn responder_status_precedence() {
    let routes = get_router();
    let r = dispatch(&routes, &get("/with_headers_and_status", ""));
    assert_eq!(r.status, 500);
    assert_eq!(r.headers.get("x-foo"), Some("foo".to_string()));
    assert_eq!(
        r.headers.get("content-type"),
        Some("text/plain; charset=utf-8".to_string())
    );
    assert_eq!(body_text(&r), "foo");
}

#[test]
fn header_override_replaces_computed_default() {
    let routes = get_router();
    let r = dispatch(&routes, &get("/blog_cn", ""));
    assert_eq!(r.status, 200);
    assert_eq!(
        r.headers.get("content-type"),
        Some("application/json;charset=utf-8".to_string())
    );
    assert_eq!(r.headers.len(), 1);
}

#[test]
fn plain_shapes_get_their_content_type_defaults() {
    let routes = get_router();
    let text = dispatch(&routes, &get("/plain_text", ""));
    assert_eq!(text.status, 200);
    assert_eq!(
        text.headers.get("content-type"),
        Some("text/plain; charset=utf-8".to_string())
    );
    assert_eq!(body_text(&text), "foo");
    let bytes = dispatch(&routes, &get("/bytes", ""));
    assert_eq!(
        bytes.headers.get("content-type"),
        Some("application/octet-stream".to_string())
    );
    assert_eq!(bytes.body, vec![1, 2, 3, 4]);
    let html = dispatch(&routes, &get("/html", ""));
    assert_eq!(html.headers.get("content-type"), Some("text/html".to_string()));
    assert_eq!(body_text(&html), "<h1>Hello, World!</h1>");
    let empty = dispatch(&routes, &get("/empty", ""));
    assert_eq!(empty.status, 200);
    assert_eq!(empty.headers.len(), 0);
    assert_eq!(empty.body.len(), 0);
}

#[test]
fn path_echo_route_greets_the_request_path() {
    let routes = get_router();
    let r = dispatch(&routes, &get("/plain_text_string", ""));
    assert_eq!(r.status, 200);
    assert_eq!(body_text(&r), "Hi from /plain_text_string");
}

#[test]
fn json_routes_encode_structured_values() {
    let routes = get_router();
    let r = dispatch(&routes, &get("/json", ""));
    assert_eq!(r.status, 200);
    assert_eq!(
        r.headers.get("content-type"),
        Some("application/json".to_string())
    );
    assert_eq!(body_text(&r), "{\"data\":42}");
    let blog = dispatch(&routes, &get("/blog", ""));
    let v: serde_json::Value = serde_json::from_str(&body_text(&blog)).unwrap();
    assert_eq!(v["title"].as_str(), Some("axum笔记(2)-response"));
    assert_eq!(v["author"].as_str(), Some("菩提树下的杨过"));
    assert_eq!(v["summary"].as_str(), Some("response各种示例"));
}

#[test]
fn status_shapes_override_the_default() {
    let routes = get_router();
    let r = dispatch(&routes, &get("/empty_with_status", ""));
    assert_eq!(r.status, 404);
    assert_eq!(r.body.len(), 0);
    let s = dispatch(&routes, &get("/with_status", ""));
    assert_eq!(s.status, 500);
    assert_eq!(body_text(&s), "Something went wrong");
}

#[test]
fn result_and_raw_shapes() {
    let routes = get_router();
    let ok = dispatch(&routes, &get("/result", ""));
    assert_eq!(ok.status, 200);
    assert_eq!(body_text(&ok), "all good");
    let raw = dispatch(&routes, &get("/response", ""));
    assert_eq!(raw.status, 200);
    assert_eq!(raw.headers.len(), 0);
    assert_eq!(raw.body.len(), 0);
}

#[test]
fn domain_error_maps_to_its_own_response() {
    let routes = get_router();
    let r = dispatch(&routes, &get("/custom_error", ""));
    assert_eq!(r.status, 500);
    assert_eq!(body_text(&r), "Opps!");
    assert_eq!(
        r.headers.get("content-type"),
        Some("text/plain; charset=utf-8".to_string())
    );
}

#[test]
fn unknown_route_is_not_found() {
    let routes = get_router();
    let r = dispatch(&routes, &get("/nope", ""));
    assert_eq!(r.status, 404);
    let wrong_method = dispatch(&routes, &post("/plain_text", b""));
    assert_eq!(wrong_method.status, 404);
}

#[test]
fn exactly_one_route_matches_each_demonstrated_request() {
    let routes = get_router();
    let cases = [
        (Method::Get, "/"),
        (Method::Get, "/user/5"),
        (Method::Get, "/user2/5"),
        (Method::Get, "/person/1/2"),
        (Method::Get, "/path_req/a/1/c/2"),
        (Method::Get, "/query_req"),
        (Method::Get, "/query_req2"),
        (Method::Get, "/query"),
        (Method::Post, "/form"),
        (Method::Post, "/json"),
        (Method::Get, "/json"),
        (Method::Get, "/get_cookie"),
        (Method::Get, "/blog"),
    ];
    for (method, path) in cases.iter() {
        let mut matches = 0;
        for route in routes.iter() {
            if route.method == *method && match_path(&route.pattern, path).is_some() {
                matches += 1;
            }
        }
        assert_eq!(matches, 1, "path {} matched {} routes", path, matches);
    }
}

#[test]
fn dispatch_is_idempotent() {
    let routes = get_router();
    let reqs = [
        get("/person/123/30", ""),
        get("/query_req2", "a=abc&d=123"),
        get("/blog", ""),
        get("/nope", ""),
    ];
    for req in reqs.iter() {
        let r1 = dispatch(&routes, req);
        let r2 = dispatch(&routes, req);
        assert_eq!(r1.status, r2.status);
        assert_eq!(r1.body, r2.body);
        assert_eq!(r1.headers.len(), r2.headers.len());
        for i in 0..r1.headers.len() {
            assert_eq!(r1.headers.entry(i), r2.headers.entry(i));
        }
    }
}
