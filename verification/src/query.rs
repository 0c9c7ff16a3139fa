//! Parsing of URL-encoded key/value content: the query string and the
//! `application/x-www-form-urlencoded` body go through the very same
//! function, so both extraction paths apply identical rules.

use vstd::prelude::*;

verus! {

use crate::percent::{pct_decode_str, percent_decode};
use crate::strsplit::{split_first, split_first_str, split_on, split_str, views_of};

/// The views of a sequence of string pairs.
pub open spec fn pair_views(v: Seq<(String, String)>) -> Seq<(Seq<char>, Seq<char>)> {
    v.map_values(|p: (String, String)| (p.0@, p.1@))
}

/// The raw key and value of one `key[=value]` field: the part before the
/// first `=` and the part after it, or an empty value if there is no `=`.
pub open spec fn field_pair(f: Seq<char>) -> (Seq<char>, Seq<char>) {
    let (k, v) = split_first(f, '=');
    match v {
        Some(val) => (k, val),
        None => (f, Seq::<char>::empty()),
    }
}

/// One field, percent-decoded on both sides (`+` decodes as a space).
pub open spec fn decoded_pair(f: Seq<char>) -> Option<(Seq<char>, Seq<char>)> {
    let p = field_pair(f);
    match (pct_decode_str(p.0, true), pct_decode_str(p.1, true)) {
        (Some(k), Some(v)) => Some((k, v)),
        _ => None,
    }
}

/// Decodes a sequence of raw fields in order: empty fields are dropped, and
/// a field that fails percent-decoding fails the whole parse.
pub open spec fn decode_fields(fs: Seq<Seq<char>>) -> Option<Seq<(Seq<char>, Seq<char>)>>
    decreases fs.len(),
{
    if fs.len() == 0 {
        Some(Seq::<(Seq<char>, Seq<char>)>::empty())
    } else {
        let rest = decode_fields(fs.skip(1));
        if fs[0].len() == 0 {
            rest
        } else {
            match (decoded_pair(fs[0]), rest) {
                (Some(p), Some(r)) => Some(seq![p] + r),
                _ => None,
            }
        }
    }
}

/// What parsing URL-encoded key/value content returns: the ordered pairs of
/// the `&`-separated fields, percent-decoded, or a decoding error.
pub open spec fn parse_pairs_spec(s: Seq<char>) -> Option<Seq<(Seq<char>, Seq<char>)>> {
    decode_fields(split_on(s, '&'))
}

/// The value of the last pair with the given key, if any: on duplicate keys
/// the last occurrence wins.
pub open spec fn last_value_spec(ps: Seq<(Seq<char>, Seq<char>)>, key: Seq<char>) -> Option<
    Seq<char>,
>
    decreases ps.len(),
{
    if ps.len() == 0 {
        None
    } else if ps.last().0 == key {
        Some(ps.last().1)
    } else {
        last_value_spec(ps.drop_last(), key)
    }
}

/// Parses URL-encoded key/value content, exactly as `parse_pairs_spec`
/// describes. Used unchanged for the query string and for a form body.
pub fn parse_pairs(s: &str) -> (r: Option<Vec<(String, String)>>)
    ensures
        r is Some <==> parse_pairs_spec(s@) is Some,
        match r {
            Some(ps) => parse_pairs_spec(s@) == Some(pair_views(ps@)),
            None => true,
        },
{
    let fields = split_str(s, '&');
    let n = fields.len();
    let ghost fviews = views_of(fields@);
    let mut out: Vec<(String, String)> = Vec::new();
    let mut i: usize = 0;
    proof {
        assert(fviews.skip(0) =~= fviews);
        match decode_fields(fviews) {
            Some(rest) => {
                assert(pair_views(out@) + rest =~= rest);
            },
            None => {},
        }
    }
    while i < n
        invariant
            i <= n,
            n == fields@.len(),
            fviews == views_of(fields@),
            fviews == split_on(s@, '&'),
            match decode_fields(fviews.skip(i as int)) {
                Some(rest) => decode_fields(fviews) == Some(pair_views(out@) + rest),
                None => decode_fields(fviews) is None,
            },
        decreases n - i,
    {
        let ghost tail = fviews.skip(i as int);
        proof {
            assert(tail[0] == fields@[i as int]@);
            assert(tail.skip(1) =~= fviews.skip(i as int + 1));
        }
        let f = &fields[i];
        if f.as_str().unicode_len() > 0 {
            let (rk, rv) = split_first_str(f.as_str(), '=');
            let (rks, rvs) = match rv {
                Some(v) => (rk, v),
                None => (rk, String::new()),
            };
            proof {
                assert(field_pair(f@) == (rks@, rvs@));
            }
            let dk = percent_decode(rks.as_str(), true);
            let dv = percent_decode(rvs.as_str(), true);
            match (dk, dv) {
                (Some(k), Some(v)) => {
                    proof {
                        match decode_fields(fviews.skip(i as int + 1)) {
                            Some(rest) => {
                                assert(pair_views(out@.push((k, v))) =~= pair_views(out@).push(
                                    (k@, v@),
                                ));
                                assert(pair_views(out@) + (seq![(k@, v@)] + rest) =~= pair_views(
                                    out@,
                                ).push((k@, v@)) + rest);
                            },
                            None => {},
                        }
                    }
                    out.push((k, v));
                },
                _ => {
                    proof {
                        assert(decoded_pair(tail[0]) is None);
                        assert(decode_fields(tail) is None);
                        assert(decode_fields(fviews) is None);
                    }
                    return None;
                },
            }
        }
        i = i + 1;
    }
    proof {
        assert(fviews.skip(n as int) =~= Seq::<Seq<char>>::empty());
        assert(pair_views(out@) + Seq::<(Seq<char>, Seq<char>)>::empty() =~= pair_views(out@));
    }
    Some(out)
}

/// Returns the value of the last pair with the given key, exactly as
/// `last_value_spec` describes.
pub fn last_value(ps: &Vec<(String, String)>, key: &str) -> (r: Option<String>)
    ensures
        match r {
            Some(v) => last_value_spec(pair_views(ps@), key@) == Some(v@),
            None => last_value_spec(pair_views(ps@), key@) is None,
        },
{
    let mut i: usize = ps.len();
    proof {
        assert(pair_views(ps@).take(ps@.len() as int) =~= pair_views(ps@));
    }
    while i > 0
        invariant
            i <= ps@.len(),
            last_value_spec(pair_views(ps@), key@) == last_value_spec(
                pair_views(ps@).take(i as int),
                key@,
            ),
        decreases i,
    {
        let ghost cur = pair_views(ps@).take(i as int);
        proof {
            assert(cur.last() == (ps@[i as int - 1].0@, ps@[i as int - 1].1@));
            assert(cur.drop_last() =~= pair_views(ps@).take(i as int - 1));
        }
        if crate::strnum::str_eq(ps[i - 1].0.as_str(), key) {
            return Some(ps[i - 1].1.clone());
        }
        i = i - 1;
    }
    proof {
        assert(pair_views(ps@).take(0) =~= Seq::<(Seq<char>, Seq<char>)>::empty());
    }
    None
}

} // verus!
