//! The cookie codec: decoding of the semicolon-delimited `Cookie` request
//! header and construction of `Set-Cookie` header values.

use vstd::prelude::*;

verus! {

use crate::strnum::str_eq;
use crate::strnum::u32_to_dec;
use crate::strnum::dec_digits;
use crate::strsplit::{
    first_index, is_pad, split_first, split_first_str, split_on, split_str, trim_spec, trim_str,
    views_of,
};

/// Decodes a sequence of raw `;`-separated segments: each is trimmed and
/// split on its first `=`; a segment without `=` is discarded.
pub open spec fn cookie_fields(fs: Seq<Seq<char>>) -> Seq<(Seq<char>, Seq<char>)>
    decreases fs.len(),
{
    if fs.len() == 0 {
        Seq::<(Seq<char>, Seq<char>)>::empty()
    } else {
        let rest = cookie_fields(fs.skip(1));
        let t = trim_spec(fs[0]);
        match split_first(t, '=').1 {
            Some(v) => seq![(split_first(t, '=').0, v)] + rest,
            None => rest,
        }
    }
}

/// What decoding a `Cookie` header value returns: the name/value pairs of
/// its well-formed segments, in order.
pub open spec fn cookie_pairs_spec(s: Seq<char>) -> Seq<(Seq<char>, Seq<char>)> {
    cookie_fields(split_on(s, ';'))
}

/// The value of the first pair with the given name, if any.
pub open spec fn cookie_value_spec(ps: Seq<(Seq<char>, Seq<char>)>, name: Seq<char>) -> Option<
    Seq<char>,
>
    decreases ps.len(),
{
    if ps.len() == 0 {
        None
    } else if ps[0].0 == name {
        Some(ps[0].1)
    } else {
        cookie_value_spec(ps.skip(1), name)
    }
}

/// Decodes a `Cookie` header value, exactly as `cookie_pairs_spec`
/// describes: malformed segments are skipped, well-formed ones kept.
pub fn cookie_pairs(s: &str) -> (r: Vec<(String, String)>)
    ensures
        crate::query::pair_views(r@) == cookie_pairs_spec(s@),
{
    let segs = split_str(s, ';');
    let n = segs.len();
    let ghost fviews = views_of(segs@);
    let mut out: Vec<(String, String)> = Vec::new();
    let mut i: usize = 0;
    proof {
        assert(fviews.skip(0) =~= fviews);
        assert(crate::query::pair_views(out@) + cookie_fields(fviews) =~= cookie_fields(fviews));
    }
    while i < n
        invariant
            i <= n,
            n == segs@.len(),
            fviews == views_of(segs@),
            fviews == split_on(s@, ';'),
            cookie_fields(fviews) =~= crate::query::pair_views(out@) + cookie_fields(
                fviews.skip(i as int),
            ),
        decreases n - i,
    {
        let ghost tail = fviews.skip(i as int);
        proof {
            assert(tail[0] == segs@[i as int]@);
            assert(tail.skip(1) =~= fviews.skip(i as int + 1));
        }
        let t = trim_str(segs[i].as_str());
        let (name, after) = split_first_str(t.as_str(), '=');
        match after {
            Some(value) => {
                proof {
                    assert(crate::query::pair_views(out@.push((name, value)))
                        =~= crate::query::pair_views(out@).push((name@, value@)));
                    assert(crate::query::pair_views(out@) + (seq![(name@, value@)]
                        + cookie_fields(fviews.skip(i as int + 1)))
                        =~= crate::query::pair_views(out@).push((name@, value@)) + cookie_fields(
                        fviews.skip(i as int + 1),
                    ));
                }
                out.push((name, value));
            },
            None => {},
        }
        i = i + 1;
    }
    proof {
        assert(fviews.skip(n as int) =~= Seq::<Seq<char>>::empty());
        assert(crate::query::pair_views(out@) + Seq::<(Seq<char>, Seq<char>)>::empty()
            =~= crate::query::pair_views(out@));
    }
    out
}

/// Returns the value of the first pair with the given name, exactly as
/// `cookie_value_spec` describes.
pub fn cookie_value(ps: &Vec<(String, String)>, name: &str) -> (r: Option<String>)
    ensures
        match r {
            Some(v) => cookie_value_spec(crate::query::pair_views(ps@), name@) == Some(v@),
            None => cookie_value_spec(crate::query::pair_views(ps@), name@) is None,
        },
{
    let n = ps.len();
    let mut i: usize = 0;
    proof {
        assert(crate::query::pair_views(ps@).skip(0) =~= crate::query::pair_views(ps@));
    }
    while i < n
        invariant
            i <= n,
            n == ps@.len(),
            cookie_value_spec(crate::query::pair_views(ps@), name@) == cookie_value_spec(
                crate::query::pair_views(ps@).skip(i as int),
                name@,
            ),
        decreases n - i,
    {
        let ghost tail = crate::query::pair_views(ps@).skip(i as int);
        proof {
            assert(tail[0] == (ps@[i as int].0@, ps@[i as int].1@));
            assert(tail.skip(1) =~= crate::query::pair_views(ps@).skip(i as int + 1));
        }
        if str_eq(ps[i].0.as_str(), name) {
            return Some(ps[i].1.clone());
        }
        i = i + 1;
    }
    proof {
        assert(crate::query::pair_views(ps@).skip(n as int) =~= Seq::<(Seq<char>, Seq<char>)>::empty());
    }
    None
}

/// The value of the first pair with the given name and a nonempty value,
/// if any.
pub open spec fn first_nonempty_value_spec(
    ps: Seq<(Seq<char>, Seq<char>)>,
    name: Seq<char>,
) -> Option<Seq<char>>
    decreases ps.len(),
{
    if ps.len() == 0 {
        None
    } else if ps[0].0 == name && ps[0].1.len() > 0 {
        Some(ps[0].1)
    } else {
        first_nonempty_value_spec(ps.skip(1), name)
    }
}

/// Returns the first nonempty value under the given name, exactly as
/// `first_nonempty_value_spec` describes.
pub fn first_nonempty_value(ps: &Vec<(String, String)>, name: &str) -> (r: Option<String>)
    ensures
        match r {
            Some(v) => first_nonempty_value_spec(crate::query::pair_views(ps@), name@) == Some(
                v@,
            ),
            None => first_nonempty_value_spec(crate::query::pair_views(ps@), name@) is None,
        },
{
    let n = ps.len();
    let mut i: usize = 0;
    proof {
        assert(crate::query::pair_views(ps@).skip(0) =~= crate::query::pair_views(ps@));
    }
    while i < n
        invariant
            i <= n,
            n == ps@.len(),
            first_nonempty_value_spec(crate::query::pair_views(ps@), name@)
                == first_nonempty_value_spec(
                crate::query::pair_views(ps@).skip(i as int),
                name@,
            ),
        decreases n - i,
    {
        let ghost tail = crate::query::pair_views(ps@).skip(i as int);
        proof {
            assert(tail[0] == (ps@[i as int].0@, ps@[i as int].1@));
            assert(tail.skip(1) =~= crate::query::pair_views(ps@).skip(i as int + 1));
        }
        if str_eq(ps[i].0.as_str(), name) && ps[i].1.as_str().unicode_len() > 0 {
            return Some(ps[i].1.clone());
        }
        i = i + 1;
    }
    proof {
        assert(crate::query::pair_views(ps@).skip(n as int) =~= Seq::<(Seq<char>, Seq<char>)>::empty());
    }
    None
}

/// Optional standard attributes of a `Set-Cookie` value.
pub struct CookieAttrs {
    pub path: Option<String>,
    pub max_age: Option<u32>,
    pub secure: bool,
    pub http_only: bool,
}

impl CookieAttrs {
    /// No attributes: the encoded value is exactly `name=value`.
    pub fn none() -> (r: CookieAttrs)
        ensures
            r.path is None,
            r.max_age is None,
            !r.secure,
            !r.http_only,
    {
        CookieAttrs { path: None, max_age: None, secure: false, http_only: false }
    }
}

/// What encoding a `Set-Cookie` value returns: `name=value` followed by the
/// chosen attributes.
pub open spec fn set_cookie_spec(
    name: Seq<char>,
    value: Seq<char>,
    path: Option<Seq<char>>,
    max_age: Option<u32>,
    secure: bool,
    http_only: bool,
) -> Seq<char> {
    name + seq!['='] + value + (match path {
        Some(p) => "; Path="@ + p,
        None => Seq::<char>::empty(),
    }) + (match max_age {
        Some(a) => "; Max-Age="@ + dec_digits(a as nat),
        None => Seq::<char>::empty(),
    }) + (if secure {
        "; Secure"@
    } else {
        Seq::<char>::empty()
    }) + (if http_only {
        "; HttpOnly"@
    } else {
        Seq::<char>::empty()
    })
}

/// Encodes a `Set-Cookie` header value, exactly as `set_cookie_spec`
/// describes.
pub fn set_cookie_value(name: &str, value: &str, attrs: &CookieAttrs) -> (r: String)
    ensures
        r@ == set_cookie_spec(
            name@,
            value@,
            match attrs.path {
                Some(p) => Some(p@),
                None => None,
            },
            attrs.max_age,
            attrs.secure,
            attrs.http_only,
        ),
{
    proof {
        reveal_strlit("=");
        reveal_strlit("; Path=");
        reveal_strlit("; Max-Age=");
        reveal_strlit("; Secure");
        reveal_strlit("; HttpOnly");
    }
    let mut s = name.to_owned();
    s.append("=");
    proof {
        assert("="@ =~= seq!['=']);
    }
    s.append(value);
    match &attrs.path {
        Some(p) => {
            s.append("; Path=");
            s.append(p.as_str());
        },
        None => {},
    }
    match &attrs.max_age {
        Some(a) => {
            s.append("; Max-Age=");
            let d = u32_to_dec(*a);
            s.append(d.as_str());
        },
        None => {},
    }
    if attrs.secure {
        s.append("; Secure");
    }
    if attrs.http_only {
        s.append("; HttpOnly");
    }
    proof {
        assert(s@ =~= set_cookie_spec(
            name@,
            value@,
            match attrs.path {
                Some(p) => Some(p@),
                None => None,
            },
            attrs.max_age,
            attrs.secure,
            attrs.http_only,
        ));
    }
    s
}

proof fn lemma_split_on_no_sep(s: Seq<char>, sep: char)
    requires
        forall|j: int| 0 <= j < s.len() ==> s[j] != sep,
    ensures
        split_on(s, sep) == seq![s],
    decreases s.len(),
{
    if s.len() == 0 {
        assert(s =~= Seq::<char>::empty());
    } else {
        assert forall|j: int| 0 <= j < s.skip(1).len() implies s.skip(1)[j] != sep by {
            assert(s.skip(1)[j] == s[j + 1]);
        }
        lemma_split_on_no_sep(s.skip(1), sep);
        assert(seq![s[0]] + s.skip(1) =~= s);
        assert(split_on(s, sep) =~= seq![s]);
    }
}

proof fn lemma_first_index_concat(a: Seq<char>, b: Seq<char>, sep: char)
    requires
        forall|j: int| 0 <= j < a.len() ==> a[j] != sep,
    ensures
        first_index(a + seq![sep] + b, sep) == a.len(),
    decreases a.len(),
{
    let s = a + seq![sep] + b;
    if a.len() == 0 {
        assert(s[0] == sep);
    } else {
        assert(s[0] == a[0]);
        assert forall|j: int| 0 <= j < a.skip(1).len() implies a.skip(1)[j] != sep by {
            assert(a.skip(1)[j] == a[j + 1]);
        }
        lemma_first_index_concat(a.skip(1), b, sep);
        assert(s.skip(1) =~= a.skip(1) + seq![sep] + b);
    }
}

/// Law: the cookie codec round-trips. Encoding a name/value pair with no
/// attributes and decoding the resulting header value yields exactly that
/// pair, and lookup by the name returns the value; the name must not hold
/// `;` or `=`, the value must not hold `;`, and neither may start or end
/// with trimmable padding.
pub proof fn lemma_cookie_round_trip(name: Seq<char>, value: Seq<char>)
    requires
        forall|j: int| 0 <= j < name.len() ==> name[j] != ';' && name[j] != '=',
        forall|j: int| 0 <= j < value.len() ==> value[j] != ';',
        name.len() > 0 ==> !is_pad(name[0]),
        value.len() > 0 ==> !is_pad(value.last()),
    ensures
        cookie_pairs_spec(set_cookie_spec(name, value, None, None, false, false)) == seq![
            (name, value),
        ],
        cookie_value_spec(
            cookie_pairs_spec(set_cookie_spec(name, value, None, None, false, false)),
            name,
        ) == Some(value),
{
    let enc = set_cookie_spec(name, value, None, None, false, false);
    let joined = name + seq!['='] + value;
    assert(enc =~= joined);
    assert forall|j: int| 0 <= j < joined.len() implies joined[j] != ';' by {
        if j < name.len() {
            assert(joined[j] == name[j]);
        } else if j == name.len() {
            assert(joined[j] == '=');
        } else {
            assert(joined[j] == value[j - name.len() - 1]);
        }
    }
    lemma_split_on_no_sep(joined, ';');
    let fs = seq![joined];
    assert(fs.skip(1) =~= Seq::<Seq<char>>::empty());
    // the single segment is already trimmed
    if joined.len() > 0 {
        if name.len() > 0 {
            assert(joined[0] == name[0]);
        } else {
            assert(joined[0] == '=');
        }
        if value.len() > 0 {
            assert(joined.last() == value.last());
        } else {
            assert(joined.last() == '=');
        }
    }
    assert(trim_spec(joined) == joined);
    lemma_first_index_concat(name, value, '=');
    assert(split_first(joined, '=').0 =~= name);
    assert(split_first(joined, '=').1 == Some(joined.skip(name.len() as int + 1)));
    assert(joined.skip(name.len() as int + 1) =~= value);
    assert(fs[0] == joined);
    assert(cookie_fields(fs.skip(1)) =~= Seq::<(Seq<char>, Seq<char>)>::empty());
    assert(cookie_fields(fs) =~= seq![(name, value)]);
    assert(cookie_pairs_spec(enc) == seq![(name, value)]);
}

} // verus!
