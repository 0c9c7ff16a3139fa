//! The extractors: typed targets populated from path segments, query
//! pairs, form pairs or a JSON body, under the value-coercion policy: a
//! required field that is absent or unparsable fails the extraction; an
//! optional field that is absent takes its declared default; an optional
//! field that is present but unparsable fails too. A value that is present
//! but empty decodes as the empty string.

use vstd::prelude::*;

verus! {

use crate::json::{lookup_spec, obj_view, JsonObject, JsonVal};
use crate::percent::pct_decode_str;
use crate::query::{last_value_spec, pair_views};
use crate::strnum::{parse_i32, parse_i32_spec, parse_u32, parse_u32_spec, str_eq};
use crate::strsplit::{split_on, split_str};

/// Why an extraction failed; every variant maps to a client error.
#[derive(PartialEq, Eq, Structural, Clone, Copy, Debug)]
pub enum ExtractError {
    /// A required field is absent.
    Missing,
    /// A field's raw value fails coercion.
    BadValue,
    /// A percent escape or byte sequence cannot be decoded.
    BadEncoding,
    /// The body is not a well-formed document of the declared shape.
    BadJson,
}

/// A target with four required fields.
pub struct SomeRequest {
    pub a: String,
    pub b: i32,
    pub c: String,
    pub d: u32,
}

/// A target whose fields are all optional; the declared defaults are the
/// empty string for `a` and `c`, `-1` for `b` and `0` for `d`.
pub struct SomeRequest2 {
    pub a: Option<String>,
    pub b: Option<i32>,
    pub c: Option<String>,
    pub d: Option<u32>,
}

/// The view of an optional string.
pub open spec fn opt_str_view(o: Option<String>) -> Option<Seq<char>> {
    match o {
        Some(s) => Some(s@),
        None => None,
    }
}

/// The mathematical value of a `SomeRequest`.
pub open spec fn some_request_view(t: SomeRequest) -> (Seq<char>, int, Seq<char>, int) {
    (t.a@, t.b as int, t.c@, t.d as int)
}

/// The mathematical value of a `SomeRequest2`.
pub open spec fn some_request2_view(t: SomeRequest2) -> (
    Option<Seq<char>>,
    Option<i32>,
    Option<Seq<char>>,
    Option<u32>,
) {
    (opt_str_view(t.a), t.b, opt_str_view(t.c), t.d)
}

/// A required string field: present or `Missing`.
pub open spec fn req_str_spec(ps: Seq<(Seq<char>, Seq<char>)>, key: Seq<char>) -> Result<
    Seq<char>,
    ExtractError,
> {
    match last_value_spec(ps, key) {
        Some(v) => Ok(v),
        None => Err(ExtractError::Missing),
    }
}

/// A required signed integer field: present and parsable, else an error.
pub open spec fn req_i32_spec(ps: Seq<(Seq<char>, Seq<char>)>, key: Seq<char>) -> Result<
    i32,
    ExtractError,
> {
    match last_value_spec(ps, key) {
        Some(raw) => match parse_i32_spec(raw) {
            Some(v) => Ok(v),
            None => Err(ExtractError::BadValue),
        },
        None => Err(ExtractError::Missing),
    }
}

/// A required unsigned integer field.
pub open spec fn req_u32_spec(ps: Seq<(Seq<char>, Seq<char>)>, key: Seq<char>) -> Result<
    u32,
    ExtractError,
> {
    match last_value_spec(ps, key) {
        Some(raw) => match parse_u32_spec(raw) {
            Some(v) => Ok(v),
            None => Err(ExtractError::BadValue),
        },
        None => Err(ExtractError::Missing),
    }
}

/// An optional string field: absent stays absent.
pub open spec fn opt_str_spec(ps: Seq<(Seq<char>, Seq<char>)>, key: Seq<char>) -> Option<
    Seq<char>,
> {
    last_value_spec(ps, key)
}

/// An optional signed integer field: absence is allowed, a present but
/// unparsable value is not.
pub open spec fn opt_i32_spec(ps: Seq<(Seq<char>, Seq<char>)>, key: Seq<char>) -> Result<
    Option<i32>,
    ExtractError,
> {
    match last_value_spec(ps, key) {
        Some(raw) => match parse_i32_spec(raw) {
            Some(v) => Ok(Some(v)),
            None => Err(ExtractError::BadValue),
        },
        None => Ok(None),
    }
}

/// An optional unsigned integer field.
pub open spec fn opt_u32_spec(ps: Seq<(Seq<char>, Seq<char>)>, key: Seq<char>) -> Result<
    Option<u32>,
    ExtractError,
> {
    match last_value_spec(ps, key) {
        Some(raw) => match parse_u32_spec(raw) {
            Some(v) => Ok(Some(v)),
            None => Err(ExtractError::BadValue),
        },
        None => Ok(None),
    }
}

/// What extracting a `SomeRequest` from decoded pairs returns, field by
/// field in declaration order; the first failing field decides the error.
pub open spec fn some_request_spec(ps: Seq<(Seq<char>, Seq<char>)>) -> Result<
    (Seq<char>, int, Seq<char>, int),
    ExtractError,
> {
    match req_str_spec(ps, "a"@) {
        Err(e) => Err(e),
        Ok(a) => match req_i32_spec(ps, "b"@) {
            Err(e) => Err(e),
            Ok(b) => match req_str_spec(ps, "c"@) {
                Err(e) => Err(e),
                Ok(c) => match req_u32_spec(ps, "d"@) {
                    Err(e) => Err(e),
                    Ok(d) => Ok((a, b as int, c, d as int)),
                },
            },
        },
    }
}

/// What extracting a `SomeRequest2` from decoded pairs returns.
pub open spec fn some_request2_spec(ps: Seq<(Seq<char>, Seq<char>)>) -> Result<
    (Option<Seq<char>>, Option<i32>, Option<Seq<char>>, Option<u32>),
    ExtractError,
> {
    match opt_i32_spec(ps, "b"@) {
        Err(e) => Err(e),
        Ok(b) => match opt_u32_spec(ps, "d"@) {
            Err(e) => Err(e),
            Ok(d) => Ok((opt_str_spec(ps, "a"@), b, opt_str_spec(ps, "c"@), d)),
        },
    }
}

/// What the query extractor computes for the all-optional target: parse the
/// raw string into pairs, then coerce field by field.
pub open spec fn query_extraction2_spec(s: Seq<char>) -> Result<
    (Option<Seq<char>>, Option<i32>, Option<Seq<char>>, Option<u32>),
    ExtractError,
> {
    match crate::query::parse_pairs_spec(s) {
        Some(ps) => some_request2_spec(ps),
        None => Err(ExtractError::BadEncoding),
    }
}

/// What the form extractor computes for the same target: decode the body
/// bytes as UTF-8, then follow the query extractor's own rules.
pub open spec fn form_extraction2_spec(body: Seq<u8>) -> Result<
    (Option<Seq<char>>, Option<i32>, Option<Seq<char>>, Option<u32>),
    ExtractError,
> {
    if vstd::utf8::valid_utf8(body) {
        query_extraction2_spec(vstd::utf8::decode_utf8(body))
    } else {
        Err(ExtractError::BadEncoding)
    }
}

/// Law: form and query extraction apply identical coercion and default
/// rules: for any key/value content, extracting from a form body carrying
/// that content yields exactly what extracting from a query string carrying
/// it yields.
pub proof fn lemma_form_query_equivalence(s: Seq<char>)
    ensures
        form_extraction2_spec(vstd::utf8::encode_utf8(s)) == query_extraction2_spec(s),
{
    vstd::utf8::encode_utf8_valid_utf8(s);
    vstd::utf8::encode_utf8_decode_utf8(s);
}

fn lookup_pair(ps: &Vec<(String, String)>, key: &str) -> (r: Option<String>)
    ensures
        match r {
            Some(v) => last_value_spec(pair_views(ps@), key@) == Some(v@),
            None => last_value_spec(pair_views(ps@), key@) is None,
        },
{
    crate::query::last_value(ps, key)
}

/// Extracts a `SomeRequest` from decoded pairs, exactly as
/// `some_request_spec` describes.
pub fn extract_some_request(ps: &Vec<(String, String)>) -> (r: Result<SomeRequest, ExtractError>)
    ensures
        match r {
            Ok(t) => some_request_spec(pair_views(ps@)) == Ok::<_, ExtractError>(some_request_view(t)),
            Err(e) => some_request_spec(pair_views(ps@)) == Err::<
                (Seq<char>, int, Seq<char>, int),
                ExtractError,
            >(e),
        },
{
    let a = match lookup_pair(ps, "a") {
        Some(v) => v,
        None => {
            return Err(ExtractError::Missing);
        },
    };
    let b = match lookup_pair(ps, "b") {
        Some(raw) => match parse_i32(raw.as_str()) {
            Some(v) => v,
            None => {
                return Err(ExtractError::BadValue);
            },
        },
        None => {
            return Err(ExtractError::Missing);
        },
    };
    let c = match lookup_pair(ps, "c") {
        Some(v) => v,
        None => {
            return Err(ExtractError::Missing);
        },
    };
    let d = match lookup_pair(ps, "d") {
        Some(raw) => match parse_u32(raw.as_str()) {
            Some(v) => v,
            None => {
                return Err(ExtractError::BadValue);
            },
        },
        None => {
            return Err(ExtractError::Missing);
        },
    };
    Ok(SomeRequest { a, b, c, d })
}

/// Extracts a `SomeRequest2` from decoded pairs, exactly as
/// `some_request2_spec` describes.
pub fn extract_some_request2(ps: &Vec<(String, String)>) -> (r: Result<
    SomeRequest2,
    ExtractError,
>)
    ensures
        match r {
            Ok(t) => some_request2_spec(pair_views(ps@)) == Ok::<_, ExtractError>(some_request2_view(t)),
            Err(e) => some_request2_spec(pair_views(ps@)) == Err::<
                (Option<Seq<char>>, Option<i32>, Option<Seq<char>>, Option<u32>),
                ExtractError,
            >(e),
        },
{
    let b = match lookup_pair(ps, "b") {
        Some(raw) => match parse_i32(raw.as_str()) {
            Some(v) => Some(v),
            None => {
                return Err(ExtractError::BadValue);
            },
        },
        None => None,
    };
    let d = match lookup_pair(ps, "d") {
        Some(raw) => match parse_u32(raw.as_str()) {
            Some(v) => Some(v),
            None => {
                return Err(ExtractError::BadValue);
            },
        },
        None => None,
    };
    let a = lookup_pair(ps, "a");
    let c = lookup_pair(ps, "c");
    Ok(SomeRequest2 { a, b, c, d })
}

/// What extracting a `SomeRequest` from a flat JSON document returns: every
/// field present with the declared type and range, no defaulting.
pub open spec fn some_request_json_spec(fs: Seq<(Seq<char>, JsonVal)>) -> Result<
    (Seq<char>, int, Seq<char>, int),
    ExtractError,
> {
    match (lookup_spec(fs, "a"@), lookup_spec(fs, "b"@), lookup_spec(fs, "c"@), lookup_spec(
        fs,
        "d"@,
    )) {
        (Some(JsonVal::Str(a)), Some(JsonVal::Int(b)), Some(JsonVal::Str(c)), Some(
            JsonVal::Int(d),
        )) => if i32::MIN <= b <= i32::MAX && 0 <= d <= u32::MAX {
            Ok((a, b, c, d))
        } else {
            Err(ExtractError::BadValue)
        },
        _ => Err(ExtractError::BadJson),
    }
}

/// Extracts a `SomeRequest` from a decoded JSON object, exactly as
/// `some_request_json_spec` describes.
pub fn extract_some_request_json(o: &JsonObject) -> (r: Result<SomeRequest, ExtractError>)
    ensures
        match r {
            Ok(t) => some_request_json_spec(obj_view(*o)) == Ok::<_, ExtractError>(some_request_view(t)),
            Err(e) => some_request_json_spec(obj_view(*o)) == Err::<
                (Seq<char>, int, Seq<char>, int),
                ExtractError,
            >(e),
        },
{
    let ga = crate::json::obj_get(o, "a");
    let gb = crate::json::obj_get(o, "b");
    let gc = crate::json::obj_get(o, "c");
    let gd = crate::json::obj_get(o, "d");
    match (ga, gb, gc, gd) {
        (
            Some(crate::json::JsonScalar::Str(a)),
            Some(crate::json::JsonScalar::Int(b)),
            Some(crate::json::JsonScalar::Str(c)),
            Some(crate::json::JsonScalar::Int(d)),
        ) => {
            if i32::MIN as i64 <= b && b <= i32::MAX as i64 && 0 <= d && d <= u32::MAX as i64 {
                Ok(SomeRequest { a, b: b as i32, c, d: d as u32 })
            } else {
                Err(ExtractError::BadValue)
            }
        },
        _ => Err(ExtractError::BadJson),
    }
}

/// One segment of a registered path pattern: a literal to match exactly, or
/// a named placeholder capturing the request's segment.
pub enum PatSeg {
    Lit(String),
    Var(String),
}

/// The mathematical value of a pattern segment: a placeholder flag and the
/// text.
pub open spec fn seg_view(p: PatSeg) -> (bool, Seq<char>) {
    match p {
        PatSeg::Lit(s) => (false, s@),
        PatSeg::Var(s) => (true, s@),
    }
}

/// The views of a pattern's segments.
pub open spec fn pat_views(ps: Seq<PatSeg>) -> Seq<(bool, Seq<char>)> {
    ps.map_values(|p: PatSeg| seg_view(p))
}

/// What parsing a pattern returns: segments split on `/`, each a
/// placeholder when it starts with `:` (named by the rest), else a literal.
pub open spec fn pattern_of(segs: Seq<Seq<char>>) -> Seq<(bool, Seq<char>)> {
    segs.map_values(
        |s: Seq<char>|
            if s.len() > 0 && s[0] == ':' {
                (true, s.skip(1))
            } else {
                (false, s)
            },
    )
}

/// Parses a route pattern such as `/person/:id/:age`, exactly as
/// `pattern_of` describes.
pub fn parse_pattern(s: &str) -> (r: Vec<PatSeg>)
    ensures
        pat_views(r@) == pattern_of(split_on(s@, '/')),
{
    let raw = split_str(s, '/');
    let n = raw.len();
    let mut out: Vec<PatSeg> = Vec::new();
    let mut i: usize = 0;
    while i < n
        invariant
            i <= n,
            n == raw@.len(),
            out@.len() == i,
            crate::strsplit::views_of(raw@) == split_on(s@, '/'),
            forall|j: int|
                0 <= j < i ==> seg_view(#[trigger] out@[j]) == pattern_of(
                    crate::strsplit::views_of(raw@),
                )[j],
        decreases n - i,
    {
        let seg = &raw[i];
        let seglen = seg.as_str().unicode_len();
        if seglen > 0 && seg.as_str().get_char(0) == ':' {
            let name = seg.as_str().substring_char(1, seglen).to_owned();
            proof {
                assert(name@ =~= raw@[i as int]@.skip(1));
            }
            out.push(PatSeg::Var(name));
        } else {
            out.push(PatSeg::Lit(seg.clone()));
        }
        i = i + 1;
    }
    proof {
        assert(pat_views(out@) =~= pattern_of(split_on(s@, '/')));
    }
    out
}

/// Positional pattern matching: the pattern matches exactly when the
/// segment counts agree and every literal agrees character for character;
/// the result maps each placeholder's name to the request's raw segment, in
/// order.
pub open spec fn match_path_spec(pat: Seq<(bool, Seq<char>)>, segs: Seq<Seq<char>>) -> Option<
    Seq<(Seq<char>, Seq<char>)>,
>
    decreases pat.len(),
{
    if pat.len() != segs.len() {
        None
    } else if pat.len() == 0 {
        Some(Seq::<(Seq<char>, Seq<char>)>::empty())
    } else {
        let rest = match_path_spec(pat.skip(1), segs.skip(1));
        if pat[0].0 {
            match rest {
                Some(vs) => Some(seq![(pat[0].1, segs[0])] + vs),
                None => None,
            }
        } else if pat[0].1 == segs[0] {
            rest
        } else {
            None
        }
    }
}

/// Matches a request path against a pattern, exactly as `match_path_spec`
/// describes over the path split on `/`.
pub fn match_path(pat: &Vec<PatSeg>, path: &str) -> (r: Option<Vec<(String, String)>>)
    ensures
        match r {
            Some(ps) => match_path_spec(pat_views(pat@), split_on(path@, '/')) == Some(
                pair_views(ps@),
            ),
            None => match_path_spec(pat_views(pat@), split_on(path@, '/')) is None,
        },
{
    let segs = split_str(path, '/');
    let n = pat.len();
    if segs.len() != n {
        return None;
    }
    let ghost pv = pat_views(pat@);
    let ghost sv = crate::strsplit::views_of(segs@);
    let mut out: Vec<(String, String)> = Vec::new();
    let mut i: usize = 0;
    proof {
        assert(pv.skip(0) =~= pv);
        assert(sv.skip(0) =~= sv);
        match match_path_spec(pv, sv) {
            Some(vs) => {
                assert(pair_views(out@) + vs =~= vs);
            },
            None => {},
        }
    }
    while i < n
        invariant
            i <= n,
            n == pat@.len(),
            n == segs@.len(),
            pv == pat_views(pat@),
            sv == crate::strsplit::views_of(segs@),
            sv == split_on(path@, '/'),
            pv.len() == n,
            sv.len() == n,
            match match_path_spec(pv.skip(i as int), sv.skip(i as int)) {
                Some(rest) => match_path_spec(pv, sv) == Some(pair_views(out@) + rest),
                None => match_path_spec(pv, sv) is None,
            },
        decreases n - i,
    {
        let ghost ptail = pv.skip(i as int);
        let ghost stail = sv.skip(i as int);
        proof {
            assert(ptail[0] == pv[i as int]);
            assert(stail[0] == sv[i as int]);
            assert(pv[i as int] == seg_view(pat@[i as int]));
            assert(sv[i as int] == segs@[i as int]@);
            assert(ptail.skip(1) =~= pv.skip(i as int + 1));
            assert(stail.skip(1) =~= sv.skip(i as int + 1));
        }
        match &pat[i] {
            PatSeg::Var(name) => {
                let owned_name = name.clone();
                let value = segs[i].clone();
                proof {
                    match match_path_spec(pv.skip(i as int + 1), sv.skip(i as int + 1)) {
                        Some(rest) => {
                            assert(pair_views(out@.push((owned_name, value))) =~= pair_views(
                                out@,
                            ).push((owned_name@, value@)));
                            assert(pair_views(out@) + (seq![(owned_name@, value@)] + rest)
                                =~= pair_views(out@).push((owned_name@, value@)) + rest);
                        },
                        None => {},
                    }
                }
                out.push((owned_name, value));
            },
            PatSeg::Lit(lit) => {
                if !str_eq(lit.as_str(), segs[i].as_str()) {
                    return None;
                }
            },
        }
        i = i + 1;
    }
    proof {
        assert(pv.skip(n as int) =~= Seq::<(bool, Seq<char>)>::empty());
        assert(sv.skip(n as int) =~= Seq::<Seq<char>>::empty());
        assert(pair_views(out@) + Seq::<(Seq<char>, Seq<char>)>::empty() =~= pair_views(out@));
    }
    Some(out)
}

/// Percent-decoding of matched segment values (names are left as written):
/// applied before the values are handed to the coercer.
pub open spec fn decode_params_spec(ps: Seq<(Seq<char>, Seq<char>)>) -> Option<
    Seq<(Seq<char>, Seq<char>)>,
>
    decreases ps.len(),
{
    if ps.len() == 0 {
        Some(Seq::<(Seq<char>, Seq<char>)>::empty())
    } else {
        match (pct_decode_str(ps[0].1, false), decode_params_spec(ps.skip(1))) {
            (Some(v), Some(rest)) => Some(seq![(ps[0].0, v)] + rest),
            _ => None,
        }
    }
}

/// Percent-decodes the values of matched path parameters, exactly as
/// `decode_params_spec` describes.
pub fn decode_params(ps: Vec<(String, String)>) -> (r: Option<Vec<(String, String)>>)
    ensures
        match r {
            Some(out) => decode_params_spec(pair_views(ps@)) == Some(pair_views(out@)),
            None => decode_params_spec(pair_views(ps@)) is None,
        },
{
    let n = ps.len();
    let ghost pvs = pair_views(ps@);
    let mut out: Vec<(String, String)> = Vec::new();
    let mut i: usize = 0;
    proof {
        assert(pvs.skip(0) =~= pvs);
        match decode_params_spec(pvs) {
            Some(rest) => {
                assert(pair_views(out@) + rest =~= rest);
            },
            None => {},
        }
    }
    while i < n
        invariant
            i <= n,
            n == ps@.len(),
            pvs == pair_views(ps@),
            pvs.len() == n,
            match decode_params_spec(pvs.skip(i as int)) {
                Some(rest) => decode_params_spec(pvs) == Some(pair_views(out@) + rest),
                None => decode_params_spec(pvs) is None,
            },
        decreases n - i,
    {
        let ghost tail = pvs.skip(i as int);
        proof {
            assert(tail[0] == pvs[i as int]);
            assert(pvs[i as int] == (ps@[i as int].0@, ps@[i as int].1@));
            assert(tail.skip(1) =~= pvs.skip(i as int + 1));
        }
        match crate::percent::percent_decode(ps[i].1.as_str(), false) {
            Some(v) => {
                let name = ps[i].0.clone();
                proof {
                    match decode_params_spec(pvs.skip(i as int + 1)) {
                        Some(rest) => {
                            assert(pair_views(out@.push((name, v))) =~= pair_views(out@).push(
                                (name@, v@),
                            ));
                            assert(pair_views(out@) + (seq![(name@, v@)] + rest) =~= pair_views(
                                out@,
                            ).push((name@, v@)) + rest);
                        },
                        None => {},
                    }
                }
                out.push((name, v));
            },
            None => {
                return None;
            },
        }
        i = i + 1;
    }
    proof {
        assert(pvs.skip(n as int) =~= Seq::<(Seq<char>, Seq<char>)>::empty());
        assert(pair_views(out@) + Seq::<(Seq<char>, Seq<char>)>::empty() =~= pair_views(out@));
    }
    Some(out)
}

} // verus!
