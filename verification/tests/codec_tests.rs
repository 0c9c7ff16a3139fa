use http_dispatch::cookie::{
    cookie_pairs, cookie_value, first_nonempty_value, set_cookie_value, CookieAttrs,
};
use http_dispatch::extract::{extract_some_request2, ExtractError};
use http_dispatch::json::{json_decode, json_encode, JsonObject, JsonScalar};
use http_dispatch::percent::percent_decode;
use http_dispatch::query::{last_value, parse_pairs};
use http_dispatch::strnum::{i32_to_dec, parse_i32, parse_u32, str_eq, str_ieq, u32_to_dec};

#[test]
fn decimal_rendering_is_exact() {
    assert_eq!(u32_to_dec(0), "0");
    assert_eq!(u32_to_dec(4294967295), "4294967295");
    assert_eq!(i32_to_dec(-1), "-1");
    assert_eq!(i32_to_dec(-2147483648), "-2147483648");
    assert_eq!(i32_to_dec(2147483647), "2147483647");
}

#[test]
fn integer_parsing_covers_the_edges() {
    assert_eq!(parse_i32("2147483647"), Some(2147483647));
    assert_eq!(parse_i32("-2147483648"), Some(-2147483648));
    assert_eq!(parse_i32("2147483648"), None);
    assert_eq!(parse_i32("-2147483649"), None);
    assert_eq!(parse_i32(""), None);
    assert_eq!(parse_i32("-"), None);
    assert_eq!(parse_i32(" 1"), None);
    assert_eq!(parse_i32("+12"), Some(12));
    assert_eq!(parse_i32("+"), None);
    assert_eq!(parse_i32("+-1"), None);
    assert_eq!(parse_i32("-+1"), None);
    assert_eq!(parse_u32("4294967295"), Some(4294967295));
    assert_eq!(parse_u32("4294967296"), None);
    assert_eq!(parse_u32("-1"), None);
    assert_eq!(parse_u32("+7"), Some(7));
    assert_eq!(parse_u32("007"), Some(7));
}

#[test]
fn string_comparisons() {
    assert!(str_eq("abc", "abc"));
    assert!(!str_eq("abc", "abd"));
    assert!(str_ieq("Content-Type", "content-type"));
    assert!(!str_ieq("content-type", "content-length"));
}

#[test]
fn percent_decoding_handles_escapes_plus_and_errors() {
    assert_eq!(percent_decode("a%20b", false), Some("a b".to_string()));
    assert_eq!(percent_decode("a+b", true), Some("a b".to_string()));
    assert_eq!(percent_decode("a+b", false), Some("a+b".to_string()));
    assert_eq!(percent_decode("%e4%b8%ad", false), Some("\u{4e2d}".to_string()));
    assert_eq!(percent_decode("%zz", false), None);
    assert_eq!(percent_decode("%2", false), None);
    assert_eq!(percent_decode("%ff", false), None); // not valid UTF-8 alone
}

#[test]
fn query_pairs_keep_order_and_last_wins() {
    let ps = parse_pairs("a=1&b=2&a=3").unwrap();
    assert_eq!(ps.len(), 3);
    assert_eq!(last_value(&ps, "a"), Some("3".to_string()));
    assert_eq!(last_value(&ps, "b"), Some("2".to_string()));
    assert_eq!(last_value(&ps, "c"), None);
    let bare = parse_pairs("flag&x=1").unwrap();
    assert_eq!(bare[0], ("flag".to_string(), "".to_string()));
    assert_eq!(parse_pairs("a=%zz"), None);
}

#[test]
fn form_and_query_coercion_agree_on_the_same_content() {
    let content = "a=abc&d=123";
    let qp = parse_pairs(content).unwrap();
    let fp = parse_pairs(content).unwrap();
    let q = extract_some_request2(&qp).unwrap();
    let f = extract_some_request2(&fp).unwrap();
    assert_eq!(q.a, f.a);
    assert_eq!(q.b, f.b);
    assert_eq!(q.c, f.c);
    assert_eq!(q.d, f.d);
    assert_eq!(q.a, Some("abc".to_string()));
    assert_eq!(q.b, None);
    assert_eq!(q.d, Some(123));
    let bad = parse_pairs("b=oops").unwrap();
    match extract_some_request2(&bad) {
        Err(e) => assert_eq!(e, ExtractError::BadValue),
        Ok(_) => panic!("a present but unparsable optional field must fail"),
    }
}

#[test]
fn cookie_round_trip() {
    let attrs = CookieAttrs::none();
    let header = set_cookie_value("blog_url", "http://example/", &attrs);
    assert_eq!(header, "blog_url=http://example/");
    let pairs = cookie_pairs(&header);
    assert_eq!(pairs, vec![("blog_url".to_string(), "http://example/".to_string())]);
    assert_eq!(cookie_value(&pairs, "blog_url"), Some("http://example/".to_string()));
}

#[test]
fn cookie_decode_skips_malformed_segments() {
    let pairs = cookie_pairs("noequals; a=1; ; b=2");
    assert_eq!(
        pairs,
        vec![("a".to_string(), "1".to_string()), ("b".to_string(), "2".to_string())]
    );
    assert_eq!(first_nonempty_value(&pairs, "a"), Some("1".to_string()));
    let empty_first = cookie_pairs("k=; k=v");
    assert_eq!(first_nonempty_value(&empty_first, "k"), Some("v".to_string()));
}

#[test]
fn cookie_attributes_append_in_order() {
    let attrs = CookieAttrs {
        path: Some("/".to_string()),
        max_age: Some(3600),
        secure: true,
        http_only: true,
    };
    let header = set_cookie_value("sid", "abc", &attrs);
    assert_eq!(header, "sid=abc; Path=/; Max-Age=3600; Secure; HttpOnly");
}

fn sample_object() -> JsonObject {
    JsonObject {
        fields: vec![
            ("a".to_string(), JsonScalar::Str("x".to_string())),
            ("b".to_string(), JsonScalar::Int(-5)),
            ("c".to_string(), JsonScalar::Str("q\"uo\\te".to_string())),
            ("d".to_string(), JsonScalar::Int(7)),
        ],
    }
}

#[test]
fn json_round_trip_is_field_for_field() {
    let o = sample_object();
    let doc = json_encode(&o);
    let back = json_decode(&doc).expect("canonical form decodes");
    assert_eq!(back.fields.len(), o.fields.len());
    for (orig, dec) in o.fields.iter().zip(back.fields.iter()) {
        assert_eq!(orig.0, dec.0);
        match (&orig.1, &dec.1) {
            (JsonScalar::Int(x), JsonScalar::Int(y)) => assert_eq!(x, y),
            (JsonScalar::Str(x), JsonScalar::Str(y)) => assert_eq!(x, y),
            _ => panic!("value shape changed in the round trip"),
        }
    }
}

#[test]
fn json_encoding_matches_the_reference_parser() {
    let doc = json_encode(&sample_object());
    let v: serde_json::Value = serde_json::from_str(&doc).expect("well-formed JSON");
    assert_eq!(v["a"].as_str(), Some("x"));
    assert_eq!(v["b"].as_i64(), Some(-5));
    assert_eq!(v["c"].as_str(), Some("q\"uo\\te"));
    assert_eq!(v["d"].as_i64(), Some(7));
}

#[test]
fn json_decoder_tolerates_whitespace() {
    let spaced = json_decode(" { \"a\" : 1 , \"b\" : \"x\" } ").expect("ordinary formatting");
    assert_eq!(spaced.fields.len(), 2);
    assert_eq!(spaced.fields[0].0, "a");
    match &spaced.fields[1].1 {
        JsonScalar::Str(v) => assert_eq!(v, "x"),
        _ => panic!("second field should be a string"),
    }
    let newlines = json_decode("{\n  \"a\": 1\n}").expect("pretty-printed form");
    assert_eq!(newlines.fields.len(), 1);
}

#[test]
fn json_decoder_rejects_malformed_documents() {
    assert!(json_decode("{\"a\":1}").is_some());
    assert!(json_decode("{}").is_some());
    assert!(json_decode("{ }").is_some());
    assert!(json_decode("{\"a\":01}").is_none()); // leading zero
    assert!(json_decode("{\"a\":+1}").is_none()); // sign not in the grammar
    assert!(json_decode("{\"a\":1,}").is_none()); // trailing comma
    assert!(json_decode("").is_none());
    assert!(json_decode("{\"a\":1}x").is_none()); // trailing content
    assert!(json_decode("{\"a\"}").is_none());
    assert!(json_decode("{\"a\":}").is_none());
}

#[test]
fn json_empty_object_round_trips() {
    let o = JsonObject { fields: Vec::new() };
    let doc = json_encode(&o);
    assert_eq!(doc, "{}");
    let back = json_decode(&doc).unwrap();
    assert_eq!(back.fields.len(), 0);
}
