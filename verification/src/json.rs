//! A JSON codec for flat objects whose field values are strings or
//! integers: the field types the declared extraction targets use. The
//! encoder produces the compact form; the decoder accepts any document of
//! the flat grammar, whitespace included, and its contract pins it exactly:
//! it returns precisely what the grammar's parse function returns.

use vstd::prelude::*;

verus! {

use crate::strnum::{dec_digits, dec_int, digit_char, i64_to_dec, str_eq};

/// A field value: an integer or a string.
pub enum JsonScalar {
    Int(i64),
    Str(String),
}

/// A flat JSON object: named fields in document order.
pub struct JsonObject {
    pub fields: Vec<(String, JsonScalar)>,
}

/// The mathematical value of a field: an unbounded integer or a character
/// sequence.
pub enum JsonVal {
    Int(int),
    Str(Seq<char>),
}

/// The mathematical value of a scalar.
pub open spec fn scalar_view(v: JsonScalar) -> JsonVal {
    match v {
        JsonScalar::Int(i) => JsonVal::Int(i as int),
        JsonScalar::Str(s) => JsonVal::Str(s@),
    }
}

/// The mathematical value of an object: its name/value pairs in order.
pub open spec fn obj_view(o: JsonObject) -> Seq<(Seq<char>, JsonVal)> {
    o.fields@.map_values(|f: (String, JsonScalar)| (f.0@, scalar_view(f.1)))
}

/// String escaping: `"` and `\` get a backslash; all other characters are
/// kept as they are.
pub open spec fn esc(s: Seq<char>) -> Seq<char>
    decreases s.len(),
{
    if s.len() == 0 {
        Seq::<char>::empty()
    } else {
        (if s[0] == '"' {
            seq!['\\', '"']
        } else if s[0] == '\\' {
            seq!['\\', '\\']
        } else {
            seq![s[0]]
        }) + esc(s.skip(1))
    }
}

/// The encoding of one value: a decimal numeral, or a quoted escaped string.
pub open spec fn enc_val(v: JsonVal) -> Seq<char> {
    match v {
        JsonVal::Int(i) => dec_int(i),
        JsonVal::Str(s) => seq!['"'] + esc(s) + seq!['"'],
    }
}

/// The encoding of one field: quoted name, `:`, value.
pub open spec fn enc_entry(f: (Seq<char>, JsonVal)) -> Seq<char> {
    seq!['"'] + esc(f.0) + seq!['"', ':'] + enc_val(f.1)
}

/// The encoding of a field list: the fields' encodings joined by `,`.
pub open spec fn enc_entries(fs: Seq<(Seq<char>, JsonVal)>) -> Seq<char>
    decreases fs.len(),
{
    if fs.len() == 0 {
        Seq::<char>::empty()
    } else if fs.len() == 1 {
        enc_entry(fs[0])
    } else {
        enc_entry(fs[0]) + seq![','] + enc_entries(fs.skip(1))
    }
}

/// The canonical encoding of a flat object.
pub open spec fn json_encode_spec(fs: Seq<(Seq<char>, JsonVal)>) -> Seq<char> {
    seq!['{'] + enc_entries(fs) + seq!['}']
}

/// The value of the first field with the given name, if any.
pub open spec fn lookup_spec(fs: Seq<(Seq<char>, JsonVal)>, name: Seq<char>) -> Option<JsonVal>
    decreases fs.len(),
{
    if fs.len() == 0 {
        None
    } else if fs[0].0 == name {
        Some(fs[0].1)
    } else {
        lookup_spec(fs.skip(1), name)
    }
}

proof fn lemma_esc_plain_prefix(s: Seq<char>, k: int)
    requires
        0 <= k <= s.len(),
        forall|j: int| 0 <= j < k ==> s[j] != '"' && s[j] != '\\',
    ensures
        esc(s) == s.take(k) + esc(s.skip(k)),
    decreases k,
{
    if k == 0 {
        assert(s.take(0) =~= Seq::<char>::empty());
        assert(s.skip(0) =~= s);
        assert(s.take(0) + esc(s) =~= esc(s));
    } else {
        assert(s.len() > 0);
        assert forall|j: int| 0 <= j < k - 1 implies s.skip(1)[j] != '"' && s.skip(1)[j]
            != '\\' by {
            assert(s.skip(1)[j] == s[j + 1]);
        }
        lemma_esc_plain_prefix(s.skip(1), k - 1);
        assert(s.skip(1).skip(k - 1) =~= s.skip(k));
        assert(seq![s[0]] + (s.skip(1).take(k - 1) + esc(s.skip(k))) =~= s.take(k) + esc(
            s.skip(k),
        ));
    }
}

/// Escapes a string, exactly as `esc` describes.
fn esc_str(s: &str) -> (r: String)
    ensures
        r@ == esc(s@),
{
    proof {
        reveal_strlit("\\\"");
        reveal_strlit("\\\\");
    }
    let n = s.unicode_len();
    let mut out = String::new();
    let mut run_start: usize = 0;
    let mut i: usize = 0;
    proof {
        assert(s@.skip(0) =~= s@);
        assert(out@ + esc(s@) =~= esc(s@));
    }
    while i < n
        invariant
            run_start <= i <= n,
            n == s@.len(),
            esc(s@) == out@ + esc(s@.skip(run_start as int)),
            forall|j: int| run_start <= j < i ==> s@[j] != '"' && s@[j] != '\\',
        decreases n - i,
    {
        let c = s.get_char(i);
        if c == '"' || c == '\\' {
            let ghost tail = s@.skip(run_start as int);
            proof {
                assert forall|j: int| 0 <= j < i - run_start implies tail[j] != '"' && tail[j]
                    != '\\' by {
                    assert(tail[j] == s@[j + run_start]);
                }
                lemma_esc_plain_prefix(tail, i - run_start as int);
                assert(tail.take(i - run_start as int) =~= s@.subrange(
                    run_start as int,
                    i as int,
                ));
                assert(tail.skip(i - run_start as int) =~= s@.skip(i as int));
                assert(s@.skip(i as int)[0] == s@[i as int]);
                assert(s@.skip(i as int).skip(1) =~= s@.skip(i as int + 1));
            }
            let run = s.substring_char(run_start, i);
            out.append(run);
            if c == '"' {
                out.append("\\\"");
                proof {
                    reveal_strlit("\\\"");
                    assert("\\\""@ =~= seq!['\\', '"']);
                }
            } else {
                out.append("\\\\");
                proof {
                    reveal_strlit("\\\\");
                    assert("\\\\"@ =~= seq!['\\', '\\']);
                }
            }
            i = i + 1;
            run_start = i;
        } else {
            i = i + 1;
        }
    }
    let ghost tail = s@.skip(run_start as int);
    proof {
        assert forall|j: int| 0 <= j < n - run_start implies tail[j] != '"' && tail[j] != '\\' by {
            assert(tail[j] == s@[j + run_start]);
        }
        lemma_esc_plain_prefix(tail, n - run_start as int);
        assert(tail.take(n - run_start as int) =~= s@.subrange(run_start as int, n as int));
        assert(tail.skip(n - run_start as int) =~= Seq::<char>::empty());
    }
    let run = s.substring_char(run_start, n);
    out.append(run);
    proof {
        assert(out@ =~= esc(s@));
    }
    out
}

/// Encodes one value, exactly as `enc_val` describes.
fn encode_scalar(v: &JsonScalar) -> (r: String)
    ensures
        r@ == enc_val(scalar_view(*v)),
{
    proof {
        reveal_strlit("\"");
    }
    match v {
        JsonScalar::Int(i) => i64_to_dec(*i),
        JsonScalar::Str(s) => {
            let mut out = String::from_str("\"");
            let e = esc_str(s.as_str());
            out.append(e.as_str());
            out.append("\"");
            proof {
                assert("\""@ =~= seq!['"']);
                assert(out@ =~= enc_val(scalar_view(*v)));
            }
            out
        },
    }
}

proof fn lemma_enc_entries_split(fs: Seq<(Seq<char>, JsonVal)>, k: int)
    requires
        1 <= k < fs.len(),
    ensures
        enc_entries(fs) == enc_entries(fs.take(k)) + seq![','] + enc_entries(fs.skip(k)),
    decreases k,
{
    if k == 1 {
        assert(fs.take(1) =~= seq![fs[0]]);
        assert(enc_entries(seq![fs[0]]) == enc_entry(fs[0]));
        assert(fs.skip(1).len() >= 1);
    } else {
        lemma_enc_entries_split(fs.skip(1), k - 1);
        assert(fs.skip(1).take(k - 1) =~= fs.take(k).skip(1));
        assert(fs.skip(1).skip(k - 1) =~= fs.skip(k));
        assert(fs.take(k)[0] == fs[0]);
        assert(fs.take(k).len() == k);
        assert(enc_entries(fs.take(k)) == enc_entry(fs[0]) + seq![','] + enc_entries(
            fs.take(k).skip(1),
        ));
        assert(enc_entry(fs[0]) + seq![','] + (enc_entries(fs.skip(1).take(k - 1)) + seq![',']
            + enc_entries(fs.skip(k))) =~= (enc_entry(fs[0]) + seq![','] + enc_entries(
            fs.take(k).skip(1),
        )) + seq![','] + enc_entries(fs.skip(k)));
    }
}

/// Encodes a flat object in canonical form, exactly as `json_encode_spec`
/// describes.
pub fn json_encode(o: &JsonObject) -> (r: String)
    ensures
        r@ == json_encode_spec(obj_view(*o)),
{
    proof {
        reveal_strlit("{");
        reveal_strlit("}");
        reveal_strlit("\"");
        reveal_strlit("\":");
        reveal_strlit(",");
    }
    let ghost fs = obj_view(*o);
    let n = o.fields.len();
    let mut out = String::from_str("{");
    proof {
        assert("{"@ =~= seq!['{']);
    }
    let mut i: usize = 0;
    while i < n
        invariant
            i <= n,
            n == o.fields@.len(),
            fs == obj_view(*o),
            fs.len() == n,
            out@ == seq!['{'] + (if i == 0 {
                Seq::<char>::empty()
            } else if i < n {
                enc_entries(fs.take(i as int)) + seq![',']
            } else {
                enc_entries(fs)
            }),
        decreases n - i,
    {
        let name = &o.fields[i].0;
        let e = esc_str(name.as_str());
        out.append("\"");
        out.append(e.as_str());
        out.append("\":");
        let v = encode_scalar(&o.fields[i].1);
        out.append(v.as_str());
        proof {
            reveal_strlit("\"");
            reveal_strlit("\":");
            assert("\""@ =~= seq!['"']);
            assert("\":"@ =~= seq!['"', ':']);
            assert(fs[i as int] == (o.fields@[i as int].0@, scalar_view(o.fields@[i as int].1)));
            assert(seq!['"'] + esc(name@) + seq!['"', ':'] + enc_val(scalar_view(
                o.fields@[i as int].1,
            )) =~= enc_entry(fs[i as int]));
            if i == 0 {
                assert(fs.take(1) =~= seq![fs[0]]);
                assert(enc_entries(fs.take(1)) == enc_entry(fs[0]));
            } else {
                lemma_enc_entries_split(fs.take(i as int + 1), i as int);
                assert(fs.take(i as int + 1).take(i as int) =~= fs.take(i as int));
                assert(fs.take(i as int + 1).skip(i as int) =~= seq![fs[i as int]]);
                assert(enc_entries(seq![fs[i as int]]) == enc_entry(fs[i as int]));
            }
            if i + 1 == n {
                assert(fs.take(n as int) =~= fs);
            }
        }
        if i + 1 < n {
            out.append(",");
            proof {
                reveal_strlit(",");
                assert(","@ =~= seq![',']);
            }
        }
        i = i + 1;
    }
    out.append("}");
    proof {
        assert("}"@ =~= seq!['}']);
        if n == 0 {
            assert(enc_entries(fs) == Seq::<char>::empty());
            assert(seq!['{'] + Seq::<char>::empty() =~= seq!['{']);
        }
        assert(out@ =~= json_encode_spec(fs));
    }
    out
}

/// Returns the value of the first field with the given name, exactly as
/// `lookup_spec` describes.
pub fn obj_get(o: &JsonObject, name: &str) -> (r: Option<JsonScalar>)
    ensures
        match r {
            Some(v) => lookup_spec(obj_view(*o), name@) == Some(scalar_view(v)),
            None => lookup_spec(obj_view(*o), name@) is None,
        },
{
    let ghost fs = obj_view(*o);
    let n = o.fields.len();
    let mut i: usize = 0;
    proof {
        assert(fs.skip(0) =~= fs);
    }
    while i < n
        invariant
            i <= n,
            n == o.fields@.len(),
            fs == obj_view(*o),
            fs.len() == n,
            lookup_spec(fs, name@) == lookup_spec(fs.skip(i as int), name@),
        decreases n - i,
    {
        let ghost tail = fs.skip(i as int);
        proof {
            assert(tail[0] == fs[i as int]);
            assert(fs[i as int] == (o.fields@[i as int].0@, scalar_view(o.fields@[i as int].1)));
            assert(tail.skip(1) =~= fs.skip(i as int + 1));
        }
        if str_eq(o.fields[i].0.as_str(), name) {
            let r = match &o.fields[i].1 {
                JsonScalar::Int(v) => JsonScalar::Int(*v),
                JsonScalar::Str(s) => JsonScalar::Str(s.clone()),
            };
            proof {
                assert(scalar_view(r) == scalar_view(o.fields@[i as int].1));
            }
            return Some(r);
        }
        i = i + 1;
    }
    proof {
        assert(fs.skip(n as int) =~= Seq::<(Seq<char>, JsonVal)>::empty());
    }
    None
}


/// Whether a character is insignificant JSON whitespace.
pub open spec fn is_json_ws(c: char) -> bool {
    c == ' ' || c == '\t' || c == '\n' || c == '\r'
}

/// The first position at or after `i` that holds no whitespace.
pub open spec fn skip_ws(s: Seq<char>, i: int) -> int
    decreases s.len() - i,
{
    if 0 <= i < s.len() && is_json_ws(s[i]) {
        skip_ws(s, i + 1)
    } else {
        i
    }
}

proof fn lemma_skip_ws_bounds(s: Seq<char>, i: int)
    requires
        0 <= i <= s.len(),
    ensures
        i <= skip_ws(s, i) <= s.len(),
    decreases s.len() - i,
{
    if i < s.len() && is_json_ws(s[i]) {
        lemma_skip_ws_bounds(s, i + 1);
    }
}

/// Parses the rest of a string literal after its opening quote: ordinary
/// characters and the `\"` and `\\` escapes, up to the closing quote. The
/// result is the unescaped text and the position after the closing quote.
pub open spec fn parse_str_body(s: Seq<char>, i: int) -> Option<(Seq<char>, int)>
    decreases s.len() - i,
{
    if !(0 <= i < s.len()) {
        None
    } else if s[i] == '"' {
        Some((Seq::<char>::empty(), i + 1))
    } else if s[i] == '\\' {
        if i + 1 < s.len() && (s[i + 1] == '"' || s[i + 1] == '\\') {
            match parse_str_body(s, i + 2) {
                Some(p) => Some((seq![s[i + 1]] + p.0, p.1)),
                None => None,
            }
        } else {
            None
        }
    } else {
        match parse_str_body(s, i + 1) {
            Some(p) => Some((seq![s[i]] + p.0, p.1)),
            None => None,
        }
    }
}

proof fn lemma_parse_str_body_bounds(s: Seq<char>, i: int)
    ensures
        match parse_str_body(s, i) {
            Some(p) => i < p.1 <= s.len(),
            None => true,
        },
    decreases s.len() - i,
{
    if 0 <= i < s.len() && s[i] != '"' {
        if s[i] == '\\' {
            if i + 1 < s.len() && (s[i + 1] == '"' || s[i + 1] == '\\') {
                lemma_parse_str_body_bounds(s, i + 2);
            }
        } else {
            lemma_parse_str_body_bounds(s, i + 1);
        }
    }
}

/// The end of the run of decimal digits starting at `i`.
pub open spec fn digit_run_end(s: Seq<char>, i: int) -> int
    decreases s.len() - i,
{
    if 0 <= i < s.len() && crate::strnum::is_digit(s[i]) {
        digit_run_end(s, i + 1)
    } else {
        i
    }
}

proof fn lemma_digit_run_bounds(s: Seq<char>, i: int)
    requires
        0 <= i <= s.len(),
    ensures
        i <= digit_run_end(s, i) <= s.len(),
        forall|j: int| i <= j < digit_run_end(s, i) ==> crate::strnum::is_digit(#[trigger] s[j]),
        digit_run_end(s, i) < s.len() ==> !crate::strnum::is_digit(s[digit_run_end(s, i)]),
    decreases s.len() - i,
{
    if i < s.len() && crate::strnum::is_digit(s[i]) {
        lemma_digit_run_bounds(s, i + 1);
    }
}

/// Parses a JSON integer at `i`: an optional `-`, then a digit run with no
/// leading zero, the value held to the signed 64-bit range.
pub open spec fn parse_int_at(s: Seq<char>, i: int) -> Option<(int, int)> {
    let neg = 0 <= i < s.len() && s[i] == '-';
    let di = if neg {
        i + 1
    } else {
        i
    };
    let e = digit_run_end(s, di);
    if e == di {
        None
    } else {
        let digits = s.subrange(di, e);
        if digits.len() > 1 && digits[0] == '0' {
            None
        } else {
            let v = crate::strnum::dec_val(digits);
            if neg {
                if v <= 0x8000_0000_0000_0000 {
                    Some((-(v as int), e))
                } else {
                    None
                }
            } else {
                if v <= 0x7FFF_FFFF_FFFF_FFFF {
                    Some((v as int, e))
                } else {
                    None
                }
            }
        }
    }
}

proof fn lemma_parse_int_bounds(s: Seq<char>, i: int)
    requires
        0 <= i <= s.len(),
    ensures
        match parse_int_at(s, i) {
            Some(p) => i < p.1 <= s.len(),
            None => true,
        },
{
    let neg = 0 <= i < s.len() && s[i] == '-';
    let di = if neg {
        i + 1
    } else {
        i
    };
    lemma_digit_run_bounds(s, di);
}

/// Parses a value at `i`: a string or an integer.
pub open spec fn parse_value_at(s: Seq<char>, i: int) -> Option<(JsonVal, int)> {
    if 0 <= i < s.len() && s[i] == '"' {
        match parse_str_body(s, i + 1) {
            Some(p) => Some((JsonVal::Str(p.0), p.1)),
            None => None,
        }
    } else {
        match parse_int_at(s, i) {
            Some(p) => Some((JsonVal::Int(p.0), p.1)),
            None => None,
        }
    }
}

proof fn lemma_parse_value_bounds(s: Seq<char>, i: int)
    requires
        0 <= i <= s.len(),
    ensures
        match parse_value_at(s, i) {
            Some(p) => i < p.1 <= s.len(),
            None => true,
        },
{
    if 0 <= i < s.len() && s[i] == '"' {
        lemma_parse_str_body_bounds(s, i + 1);
    } else {
        lemma_parse_int_bounds(s, i);
    }
}

/// Parses the members of an object, `i` standing on the opening quote of
/// the first name: `name : value` pairs separated by `,`, whitespace
/// allowed around the separators, ending at the closing `}`. The result is
/// the field list and the position after the `}`.
pub open spec fn parse_members(s: Seq<char>, i: int) -> Option<(Seq<(Seq<char>, JsonVal)>, int)>
    decreases s.len() - i,
    via parse_members_decreases
{
    if !(0 <= i < s.len() && s[i] == '"') {
        None
    } else {
        match parse_str_body(s, i + 1) {
            None => None,
            Some(kp) => {
                let j2 = skip_ws(s, kp.1);
                if !(j2 < s.len() && s[j2] == ':') {
                    None
                } else {
                    let j3 = skip_ws(s, j2 + 1);
                    match parse_value_at(s, j3) {
                        None => None,
                        Some(vp) => {
                            let j5 = skip_ws(s, vp.1);
                            if j5 < s.len() && s[j5] == ',' {
                                let j6 = skip_ws(s, j5 + 1);
                                match parse_members(s, j6) {
                                    Some(rp) => Some((seq![(kp.0, vp.0)] + rp.0, rp.1)),
                                    None => None,
                                }
                            } else if j5 < s.len() && s[j5] == '}' {
                                Some((seq![(kp.0, vp.0)], j5 + 1))
                            } else {
                                None
                            }
                        },
                    }
                }
            },
        }
    }
}

#[via_fn]
proof fn parse_members_decreases(s: Seq<char>, i: int) {
    if 0 <= i < s.len() && s[i] == '"' {
        lemma_parse_str_body_bounds(s, i + 1);
        match parse_str_body(s, i + 1) {
            None => {},
            Some(kp) => {
                lemma_skip_ws_bounds(s, kp.1);
                let j2 = skip_ws(s, kp.1);
                if j2 < s.len() && s[j2] == ':' {
                    lemma_skip_ws_bounds(s, j2 + 1);
                    let j3 = skip_ws(s, j2 + 1);
                    lemma_parse_value_bounds(s, j3);
                    match parse_value_at(s, j3) {
                        None => {},
                        Some(vp) => {
                            lemma_skip_ws_bounds(s, vp.1);
                            let j5 = skip_ws(s, vp.1);
                            if j5 < s.len() && s[j5] == ',' {
                                lemma_skip_ws_bounds(s, j5 + 1);
                            }
                        },
                    }
                }
            },
        }
    }
}

proof fn lemma_parse_members_bounds(s: Seq<char>, i: int)
    requires
        0 <= i <= s.len(),
    ensures
        match parse_members(s, i) {
            Some(p) => i < p.1 <= s.len(),
            None => true,
        },
    decreases s.len() - i,
{
    if 0 <= i < s.len() && s[i] == '"' {
        lemma_parse_str_body_bounds(s, i + 1);
        match parse_str_body(s, i + 1) {
            None => {},
            Some(kp) => {
                lemma_skip_ws_bounds(s, kp.1);
                let j2 = skip_ws(s, kp.1);
                if j2 < s.len() && s[j2] == ':' {
                    lemma_skip_ws_bounds(s, j2 + 1);
                    let j3 = skip_ws(s, j2 + 1);
                    lemma_parse_value_bounds(s, j3);
                    match parse_value_at(s, j3) {
                        None => {},
                        Some(vp) => {
                            lemma_skip_ws_bounds(s, vp.1);
                            let j5 = skip_ws(s, vp.1);
                            if j5 < s.len() && s[j5] == ',' {
                                lemma_skip_ws_bounds(s, j5 + 1);
                                lemma_parse_members_bounds(s, skip_ws(s, j5 + 1));
                            }
                        },
                    }
                }
            },
        }
    }
}

/// What decoding a flat JSON document returns: one object, whitespace
/// allowed around its tokens, nothing after it; field values are strings or
/// integers.
pub open spec fn json_parse_spec(s: Seq<char>) -> Option<Seq<(Seq<char>, JsonVal)>> {
    let i0 = skip_ws(s, 0);
    if !(i0 < s.len() && s[i0] == '{') {
        None
    } else {
        let i1 = skip_ws(s, i0 + 1);
        if i1 < s.len() && s[i1] == '}' {
            if skip_ws(s, i1 + 1) == s.len() {
                Some(Seq::<(Seq<char>, JsonVal)>::empty())
            } else {
                None
            }
        } else {
            match parse_members(s, i1) {
                Some(p) => if skip_ws(s, p.1) == s.len() {
                    Some(p.0)
                } else {
                    None
                },
                None => None,
            }
        }
    }
}

fn skip_ws_exec(s: &str, i: usize) -> (r: usize)
    requires
        i <= s@.len(),
    ensures
        r == skip_ws(s@, i as int),
        i <= r <= s@.len(),
    decreases s@.len() - i,
{
    if i < s.unicode_len() {
        let c = s.get_char(i);
        if c == ' ' || c == '\t' || c == '\n' || c == '\r' {
            return skip_ws_exec(s, i + 1);
        }
    }
    i
}

fn parse_str_body_exec(s: &str, i: usize) -> (r: Option<(String, usize)>)
    requires
        i <= s@.len(),
    ensures
        match r {
            Some(p) => parse_str_body(s@, i as int) == Some((p.0@, p.1 as int)) && i < p.1
                <= s@.len(),
            None => parse_str_body(s@, i as int) is None,
        },
    decreases s@.len() - i,
{
    let n = s.unicode_len();
    if i >= n {
        return None;
    }
    let c = s.get_char(i);
    if c == '"' {
        Some((String::new(), i + 1))
    } else if c == '\\' {
        if i + 1 >= n {
            return None;
        }
        let d = s.get_char(i + 1);
        if d == '"' || d == '\\' {
            match parse_str_body_exec(s, i + 2) {
                Some(p) => {
                    let mut out = s.substring_char(i + 1, i + 2).to_owned();
                    out.append(p.0.as_str());
                    proof {
                        assert(s@.subrange(i as int + 1, i as int + 2) =~= seq![s@[i as int + 1]]);
                        assert(out@ =~= seq![s@[i as int + 1]] + p.0@);
                    }
                    Some((out, p.1))
                },
                None => None,
            }
        } else {
            None
        }
    } else {
        match parse_str_body_exec(s, i + 1) {
            Some(p) => {
                let mut out = s.substring_char(i, i + 1).to_owned();
                out.append(p.0.as_str());
                proof {
                    assert(s@.subrange(i as int, i as int + 1) =~= seq![s@[i as int]]);
                    assert(out@ =~= seq![s@[i as int]] + p.0@);
                }
                Some((out, p.1))
            },
            None => None,
        }
    }
}

fn digit_run_end_exec(s: &str, i: usize) -> (r: usize)
    requires
        i <= s@.len(),
    ensures
        r == digit_run_end(s@, i as int),
        i <= r <= s@.len(),
    decreases s@.len() - i,
{
    if i < s.unicode_len() {
        let u = s.get_char(i) as u32;
        if 48 <= u && u <= 57 {
            return digit_run_end_exec(s, i + 1);
        }
    }
    i
}

fn parse_int_exec(s: &str, i: usize) -> (r: Option<(i64, usize)>)
    requires
        i <= s@.len(),
    ensures
        match r {
            Some(p) => parse_int_at(s@, i as int) == Some((p.0 as int, p.1 as int)) && i < p.1
                <= s@.len(),
            None => parse_int_at(s@, i as int) is None,
        },
{
    let n = s.unicode_len();
    let neg = i < n && s.get_char(i) == '-';
    let di: usize = if neg {
        i + 1
    } else {
        i
    };
    let e = digit_run_end_exec(s, di);
    proof {
        lemma_digit_run_bounds(s@, di as int);
    }
    if e == di {
        return None;
    }
    let ghost digits = s@.subrange(di as int, e as int);
    if e - di > 1 && s.get_char(di) == '0' {
        proof {
            assert(digits[0] == s@[di as int]);
        }
        return None;
    }
    let cap: u64 = if neg {
        0x8000_0000_0000_0000u64
    } else {
        0x7FFF_FFFF_FFFF_FFFFu64
    };
    let mut acc: u64 = 0;
    let mut k: usize = di;
    proof {
        assert(digits.take(0) =~= Seq::<char>::empty());
    }
    while k < e
        invariant
            i <= s@.len(),
            n == s@.len(),
            neg == (i < n && s@[i as int] == '-'),
            di as int == (if neg {
                i as int + 1
            } else {
                i as int
            }),
            e == digit_run_end(s@, di as int),
            cap == (if neg {
                0x8000_0000_0000_0000u64
            } else {
                0x7FFF_FFFF_FFFF_FFFFu64
            }),
            di <= k <= e <= s@.len(),
            di < e,
            digits == s@.subrange(di as int, e as int),
            digits.len() == e - di,
            !(digits.len() > 1 && digits[0] == '0'),
            acc <= cap,
            acc == crate::strnum::dec_val(digits.take(k - di)),
            forall|j: int| di <= j < e ==> crate::strnum::is_digit(#[trigger] s@[j]),
        decreases e - k,
    {
        let c = s.get_char(k);
        let u = c as u32;
        proof {
            assert(digits[k - di] == s@[k as int]);
            crate::strnum::lemma_dec_val_take_succ(digits, k - di);
        }
        let d = (u - 48) as u64;
        if (acc as u128) * 10 + (d as u128) > cap as u128 {
            proof {
                crate::strnum::lemma_dec_val_take_mono(digits, k - di + 1, digits.len() as int);
                assert(digits.take(digits.len() as int) =~= digits);
                assert(crate::strnum::dec_val(digits) > cap);
            }
            return None;
        }
        acc = acc * 10 + d;
        k = k + 1;
    }
    proof {
        assert(digits.take(digits.len() as int) =~= digits);
        assert(acc == crate::strnum::dec_val(digits));
    }
    let v: i64 = if neg {
        if acc == 0x8000_0000_0000_0000u64 {
            i64::MIN
        } else {
            -(acc as i64)
        }
    } else {
        acc as i64
    };
    Some((v, e))
}

fn parse_value_exec(s: &str, i: usize) -> (r: Option<(JsonScalar, usize)>)
    requires
        i <= s@.len(),
    ensures
        match r {
            Some(p) => parse_value_at(s@, i as int) == Some((scalar_view(p.0), p.1 as int)) && i
                < p.1 <= s@.len(),
            None => parse_value_at(s@, i as int) is None,
        },
{
    if i < s.unicode_len() && s.get_char(i) == '"' {
        match parse_str_body_exec(s, i + 1) {
            Some(p) => Some((JsonScalar::Str(p.0), p.1)),
            None => None,
        }
    } else {
        match parse_int_exec(s, i) {
            Some(p) => Some((JsonScalar::Int(p.0), p.1)),
            None => None,
        }
    }
}

fn parse_members_exec(s: &str, i: usize) -> (r: Option<(Vec<(String, JsonScalar)>, usize)>)
    requires
        i <= s@.len(),
    ensures
        match r {
            Some(p) => parse_members(s@, i as int) == Some(
                (obj_view(JsonObject { fields: p.0 }), p.1 as int),
            ) && i < p.1 <= s@.len(),
            None => parse_members(s@, i as int) is None,
        },
    decreases s@.len() - i,
{
    let n = s.unicode_len();
    if !(i < n && s.get_char(i) == '"') {
        return None;
    }
    let kp = match parse_str_body_exec(s, i + 1) {
        Some(kp) => kp,
        None => {
            return None;
        },
    };
    let j2 = skip_ws_exec(s, kp.1);
    if !(j2 < n && s.get_char(j2) == ':') {
        return None;
    }
    let j3 = skip_ws_exec(s, j2 + 1);
    let vp = match parse_value_exec(s, j3) {
        Some(vp) => vp,
        None => {
            return None;
        },
    };
    let j5 = skip_ws_exec(s, vp.1);
    if j5 < n && s.get_char(j5) == ',' {
        let j6 = skip_ws_exec(s, j5 + 1);
        match parse_members_exec(s, j6) {
            Some(rp) => {
                let mut fields = rp.0;
                let ghost rest_view = obj_view(JsonObject { fields });
                fields.insert(0, (kp.0, vp.0));
                proof {
                    assert(obj_view(JsonObject { fields }) =~= seq![(kp.0@, scalar_view(vp.0))]
                        + rest_view);
                }
                Some((fields, rp.1))
            },
            None => None,
        }
    } else if j5 < n && s.get_char(j5) == '}' {
        let mut fields: Vec<(String, JsonScalar)> = Vec::new();
        fields.push((kp.0, vp.0));
        proof {
            assert(obj_view(JsonObject { fields }) =~= seq![(fields@[0].0@, scalar_view(
                fields@[0].1,
            ))]);
        }
        Some((fields, j5 + 1))
    } else {
        None
    }
}

proof fn lemma_concat_split(p1: Seq<char>, x1: Seq<char>, p2: Seq<char>, x2: Seq<char>)
    requires
        p1 + x1 == p2 + x2,
        p1.len() == p2.len(),
    ensures
        p1 == p2,
        x1 == x2,
{
    assert forall|i: int| 0 <= i < p1.len() implies p1[i] == p2[i] by {
        assert((p1 + x1)[i] == p1[i]);
        assert((p2 + x2)[i] == p2[i]);
    }
    assert(p1 =~= p2);
    assert(x1.len() == x2.len()) by {
        let s = p1 + x1;
        assert(s == p2 + x2);
        assert(s.len() == p1.len() + x1.len());
        assert(s.len() == (p2 + x2).len());
        assert((p2 + x2).len() == p2.len() + x2.len());
    }
    assert forall|i: int| 0 <= i < x1.len() implies x1[i] == x2[i] by {
        assert((p1 + x1)[p1.len() + i] == x1[i]);
        assert((p2 + x2)[p2.len() + i] == x2[i]);
    }
    assert(x1 =~= x2);
}

proof fn lemma_esc_head(k: Seq<char>)
    requires
        k.len() > 0,
    ensures
        esc(k).len() >= 1,
        esc(k)[0] != '"',
        (k[0] == '"' || k[0] == '\\') ==> esc(k)[0] == '\\' && esc(k).len() >= 2 && esc(k)[1]
            == k[0] && esc(k) == seq!['\\', k[0]] + esc(k.skip(1)),
        !(k[0] == '"' || k[0] == '\\') ==> esc(k)[0] == k[0] && esc(k) == seq![k[0]] + esc(
            k.skip(1),
        ),
{
}

proof fn lemma_esc_prefix_unique(k1: Seq<char>, k2: Seq<char>, r1: Seq<char>, r2: Seq<char>)
    requires
        esc(k1) + seq!['"'] + r1 == esc(k2) + seq!['"'] + r2,
    ensures
        k1 == k2,
        r1 == r2,
    decreases k1.len(),
{
    let s1 = esc(k1) + seq!['"'] + r1;
    let s2 = esc(k2) + seq!['"'] + r2;
    if k1.len() == 0 && k2.len() == 0 {
        assert(esc(k1) =~= Seq::<char>::empty());
        assert(esc(k2) =~= Seq::<char>::empty());
        lemma_concat_split(esc(k1) + seq!['"'], r1, esc(k2) + seq!['"'], r2);
        assert(k1 =~= k2);
    } else if k1.len() == 0 {
        assert(esc(k1) =~= Seq::<char>::empty());
        assert(s1[0] == '"');
        lemma_esc_head(k2);
        assert(s2[0] == esc(k2)[0]);
        assert(false);
    } else if k2.len() == 0 {
        assert(esc(k2) =~= Seq::<char>::empty());
        assert(s2[0] == '"');
        lemma_esc_head(k1);
        assert(s1[0] == esc(k1)[0]);
        assert(false);
    } else {
        lemma_esc_head(k1);
        lemma_esc_head(k2);
        let sp1 = k1[0] == '"' || k1[0] == '\\';
        let sp2 = k2[0] == '"' || k2[0] == '\\';
        assert(s1[0] == esc(k1)[0]);
        assert(s2[0] == esc(k2)[0]);
        if sp1 && sp2 {
            assert(s1[1] == esc(k1)[1]);
            assert(s2[1] == esc(k2)[1]);
            assert(k1[0] == k2[0]);
            assert(s1 =~= seq!['\\', k1[0]] + (esc(k1.skip(1)) + seq!['"'] + r1));
            assert(s2 =~= seq!['\\', k2[0]] + (esc(k2.skip(1)) + seq!['"'] + r2));
            lemma_concat_split(
                seq!['\\', k1[0]],
                esc(k1.skip(1)) + seq!['"'] + r1,
                seq!['\\', k2[0]],
                esc(k2.skip(1)) + seq!['"'] + r2,
            );
            lemma_esc_prefix_unique(k1.skip(1), k2.skip(1), r1, r2);
            assert(k1 =~= seq![k1[0]] + k1.skip(1));
            assert(k2 =~= seq![k2[0]] + k2.skip(1));
        } else if !sp1 && !sp2 {
            assert(k1[0] == k2[0]);
            assert(s1 =~= seq![k1[0]] + (esc(k1.skip(1)) + seq!['"'] + r1));
            assert(s2 =~= seq![k2[0]] + (esc(k2.skip(1)) + seq!['"'] + r2));
            lemma_concat_split(
                seq![k1[0]],
                esc(k1.skip(1)) + seq!['"'] + r1,
                seq![k2[0]],
                esc(k2.skip(1)) + seq!['"'] + r2,
            );
            lemma_esc_prefix_unique(k1.skip(1), k2.skip(1), r1, r2);
            assert(k1 =~= seq![k1[0]] + k1.skip(1));
            assert(k2 =~= seq![k2[0]] + k2.skip(1));
        } else {
            // one side escapes, the other does not: the heads disagree
            assert(false);
        }
    }
}

proof fn lemma_dec_digits_all_digits(n: nat)
    ensures
        dec_digits(n).len() >= 1,
        crate::strnum::all_digits(dec_digits(n)),
        n >= 10 ==> dec_digits(n).len() >= 2,
    decreases n,
{
    if n < 10 {
        assert(crate::strnum::is_digit(digit_char(n)));
        assert(dec_digits(n) =~= seq![digit_char(n)]);
    } else {
        lemma_dec_digits_all_digits(n / 10);
        assert(crate::strnum::is_digit(digit_char(n % 10)));
        assert forall|i: int| 0 <= i < dec_digits(n).len() implies crate::strnum::is_digit(
            #[trigger] dec_digits(n)[i],
        ) by {
            if i < dec_digits(n / 10).len() {
                assert(dec_digits(n)[i] == dec_digits(n / 10)[i]);
            } else {
                assert(dec_digits(n)[i] == digit_char(n % 10));
            }
        }
    }
}

proof fn lemma_dec_digits_injective(n1: nat, n2: nat)
    requires
        dec_digits(n1) == dec_digits(n2),
    ensures
        n1 == n2,
    decreases n1,
{
    lemma_dec_digits_all_digits(n1);
    lemma_dec_digits_all_digits(n2);
    assert(dec_digits(n1).last() == digit_char(n1 % 10));
    assert(dec_digits(n2).last() == digit_char(n2 % 10));
    assert(n1 % 10 == n2 % 10) by {
        assert(digit_char(n1 % 10) == digit_char(n2 % 10));
    }
    if n1 < 10 && n2 < 10 {
    } else if n1 >= 10 && n2 >= 10 {
        assert(dec_digits(n1).drop_last() =~= dec_digits(n1 / 10));
        assert(dec_digits(n2).drop_last() =~= dec_digits(n2 / 10));
        lemma_dec_digits_injective(n1 / 10, n2 / 10);
    } else {
        // one has a single digit, the other at least two
        assert(false);
    }
}

proof fn lemma_digit_run_unique(d1: Seq<char>, r1: Seq<char>, d2: Seq<char>, r2: Seq<char>)
    requires
        crate::strnum::all_digits(d1),
        crate::strnum::all_digits(d2),
        d1 + r1 == d2 + r2,
        r1.len() > 0 ==> !crate::strnum::is_digit(r1[0]),
        r2.len() > 0 ==> !crate::strnum::is_digit(r2[0]),
    ensures
        d1 == d2,
        r1 == r2,
{
    if d1.len() < d2.len() {
        assert(r1.len() > 0);
        assert(r1[0] == (d1 + r1)[d1.len() as int]);
        assert((d2 + r2)[d1.len() as int] == d2[d1.len() as int]);
        assert(false);
    } else if d2.len() < d1.len() {
        assert(r2.len() > 0);
        assert(r2[0] == (d2 + r2)[d2.len() as int]);
        assert((d1 + r1)[d2.len() as int] == d1[d2.len() as int]);
        assert(false);
    } else {
        lemma_concat_split(d1, r1, d2, r2);
    }
}

proof fn lemma_dec_int_prefix_unique(i1: int, i2: int, r1: Seq<char>, r2: Seq<char>)
    requires
        dec_int(i1) + r1 == dec_int(i2) + r2,
        r1.len() > 0 ==> !crate::strnum::is_digit(r1[0]) && r1[0] != '-',
        r2.len() > 0 ==> !crate::strnum::is_digit(r2[0]) && r2[0] != '-',
    ensures
        i1 == i2,
        r1 == r2,
{
    lemma_dec_digits_all_digits((if i1 < 0 { -i1 } else { i1 }) as nat);
    lemma_dec_digits_all_digits((if i2 < 0 { -i2 } else { i2 }) as nat);
    let s1 = dec_int(i1) + r1;
    let s2 = dec_int(i2) + r2;
    if i1 < 0 && i2 < 0 {
        assert(s1 =~= seq!['-'] + (dec_digits((-i1) as nat) + r1));
        assert(s2 =~= seq!['-'] + (dec_digits((-i2) as nat) + r2));
        lemma_concat_split(
            seq!['-'],
            dec_digits((-i1) as nat) + r1,
            seq!['-'],
            dec_digits((-i2) as nat) + r2,
        );
        lemma_digit_run_unique(dec_digits((-i1) as nat), r1, dec_digits((-i2) as nat), r2);
        lemma_dec_digits_injective((-i1) as nat, (-i2) as nat);
    } else if i1 >= 0 && i2 >= 0 {
        lemma_digit_run_unique(dec_digits(i1 as nat), r1, dec_digits(i2 as nat), r2);
        lemma_dec_digits_injective(i1 as nat, i2 as nat);
    } else if i1 < 0 {
        assert(s1[0] == '-');
        assert(s2[0] == dec_digits(i2 as nat)[0]);
        assert(crate::strnum::is_digit(dec_digits(i2 as nat)[0]));
        assert(false);
    } else {
        assert(s2[0] == '-');
        assert(s1[0] == dec_digits(i1 as nat)[0]);
        assert(crate::strnum::is_digit(dec_digits(i1 as nat)[0]));
        assert(false);
    }
}

proof fn lemma_enc_val_prefix_unique(v1: JsonVal, v2: JsonVal, r1: Seq<char>, r2: Seq<char>)
    requires
        enc_val(v1) + r1 == enc_val(v2) + r2,
        r1.len() > 0 ==> r1[0] == ',',
        r2.len() > 0 ==> r2[0] == ',',
    ensures
        v1 == v2,
        r1 == r2,
{
    let s1 = enc_val(v1) + r1;
    let s2 = enc_val(v2) + r2;
    match (v1, v2) {
        (JsonVal::Str(k1), JsonVal::Str(k2)) => {
            assert(s1 =~= seq!['"'] + (esc(k1) + seq!['"'] + r1));
            assert(s2 =~= seq!['"'] + (esc(k2) + seq!['"'] + r2));
            lemma_concat_split(
                seq!['"'],
                esc(k1) + seq!['"'] + r1,
                seq!['"'],
                esc(k2) + seq!['"'] + r2,
            );
            lemma_esc_prefix_unique(k1, k2, r1, r2);
        },
        (JsonVal::Int(i1), JsonVal::Int(i2)) => {
            lemma_dec_int_prefix_unique(i1, i2, r1, r2);
        },
        (JsonVal::Str(k1), JsonVal::Int(i2)) => {
            assert(s1[0] == '"');
            lemma_dec_digits_all_digits((if i2 < 0 { -i2 } else { i2 }) as nat);
            if i2 < 0 {
                assert(s2[0] == '-');
            } else {
                assert(s2[0] == dec_digits(i2 as nat)[0]);
                assert(crate::strnum::is_digit(s2[0]));
            }
            assert(false);
        },
        (JsonVal::Int(i1), JsonVal::Str(k2)) => {
            assert(s2[0] == '"');
            lemma_dec_digits_all_digits((if i1 < 0 { -i1 } else { i1 }) as nat);
            if i1 < 0 {
                assert(s1[0] == '-');
            } else {
                assert(s1[0] == dec_digits(i1 as nat)[0]);
                assert(crate::strnum::is_digit(s1[0]));
            }
            assert(false);
        },
    }
}

#[verifier::rlimit(100)]
proof fn lemma_enc_entries_injective(a: Seq<(Seq<char>, JsonVal)>, b: Seq<(Seq<char>, JsonVal)>)
    requires
        enc_entries(a) == enc_entries(b),
    ensures
        a == b,
    decreases a.len(),
{
    if a.len() == 0 && b.len() == 0 {
        assert(a =~= b);
    } else if a.len() == 0 {
        assert(enc_entries(a).len() == 0);
        assert(enc_entry(b[0]).len() >= 1);
        assert(enc_entries(b).len() >= 1);
        assert(false);
    } else if b.len() == 0 {
        assert(enc_entries(b).len() == 0);
        assert(enc_entry(a[0]).len() >= 1);
        assert(enc_entries(a).len() >= 1);
        assert(false);
    } else {
        let x = if a.len() == 1 {
            Seq::<char>::empty()
        } else {
            seq![','] + enc_entries(a.skip(1))
        };
        let y = if b.len() == 1 {
            Seq::<char>::empty()
        } else {
            seq![','] + enc_entries(b.skip(1))
        };
        assert(enc_entries(a) =~= enc_entry(a[0]) + x);
        assert(enc_entries(b) =~= enc_entry(b[0]) + y);
        assert(enc_entry(a[0]) + x =~= seq!['"'] + (esc(a[0].0) + seq!['"'] + (seq![':']
            + enc_val(a[0].1) + x)));
        assert(enc_entry(b[0]) + y =~= seq!['"'] + (esc(b[0].0) + seq!['"'] + (seq![':']
            + enc_val(b[0].1) + y)));
        lemma_concat_split(
            seq!['"'],
            esc(a[0].0) + seq!['"'] + (seq![':'] + enc_val(a[0].1) + x),
            seq!['"'],
            esc(b[0].0) + seq!['"'] + (seq![':'] + enc_val(b[0].1) + y),
        );
        lemma_esc_prefix_unique(
            a[0].0,
            b[0].0,
            seq![':'] + enc_val(a[0].1) + x,
            seq![':'] + enc_val(b[0].1) + y,
        );
        assert(seq![':'] + enc_val(a[0].1) + x =~= seq![':'] + (enc_val(a[0].1) + x));
        assert(seq![':'] + enc_val(b[0].1) + y =~= seq![':'] + (enc_val(b[0].1) + y));
        lemma_concat_split(seq![':'], enc_val(a[0].1) + x, seq![':'], enc_val(b[0].1) + y);
        assert(x.len() > 0 ==> x[0] == ',');
        assert(y.len() > 0 ==> y[0] == ',');
        lemma_enc_val_prefix_unique(a[0].1, b[0].1, x, y);
        if a.len() == 1 && b.len() == 1 {
            assert(a =~= seq![a[0]]);
            assert(b =~= seq![b[0]]);
            assert(a[0].0 == b[0].0 && a[0].1 == b[0].1);
            assert(a[0] == b[0]);
        } else if a.len() > 1 && b.len() > 1 {
            lemma_concat_split(seq![','], enc_entries(a.skip(1)), seq![','], enc_entries(b.skip(1)));
            lemma_enc_entries_injective(a.skip(1), b.skip(1));
            assert(a =~= seq![a[0]] + a.skip(1));
            assert(b =~= seq![b[0]] + b.skip(1));
            assert(a[0] == b[0]);
        } else {
            // one list ends here, the other continues: x and y have
            // different lengths, yet x == y
            assert(false);
        }
    }
}

/// Law (JSON round trip): the canonical encoding pins the document down. If
/// two documents have the same canonical encoding they are field-for-field
/// equal; with the decoder's own contract, whatever a decode of an encoded
/// document returns is that document.
pub proof fn lemma_json_encode_injective(
    a: Seq<(Seq<char>, JsonVal)>,
    b: Seq<(Seq<char>, JsonVal)>,
)
    requires
        json_encode_spec(a) == json_encode_spec(b),
    ensures
        a == b,
{
    assert(json_encode_spec(a) =~= seq!['{'] + (enc_entries(a) + seq!['}']));
    assert(json_encode_spec(b) =~= seq!['{'] + (enc_entries(b) + seq!['}']));
    lemma_concat_split(seq!['{'], enc_entries(a) + seq!['}'], seq!['{'], enc_entries(b) + seq!['}']);
    lemma_concat_split(enc_entries(a), seq!['}'], enc_entries(b), seq!['}']);
    lemma_enc_entries_injective(a, b);
}

/// Whether every integer field value fits the decoder's 64-bit range.
pub open spec fn val_in_range(v: JsonVal) -> bool {
    match v {
        JsonVal::Int(n) => i64::MIN <= n <= i64::MAX,
        JsonVal::Str(_) => true,
    }
}

/// Whether every field value of a list is in range.
pub open spec fn vals_in_range(fs: Seq<(Seq<char>, JsonVal)>) -> bool {
    forall|k: int| 0 <= k < fs.len() ==> val_in_range((#[trigger] fs[k]).1)
}

proof fn lemma_obj_view_in_range(o: JsonObject)
    ensures
        vals_in_range(obj_view(o)),
{
    assert forall|k: int| 0 <= k < obj_view(o).len() implies val_in_range(
        (#[trigger] obj_view(o)[k]).1,
    ) by {
        assert(obj_view(o)[k] == (o.fields@[k].0@, scalar_view(o.fields@[k].1)));
    }
}

proof fn lemma_parse_str_complete(s: Seq<char>, i: int, k: Seq<char>)
    requires
        0 <= i,
        i + esc(k).len() + 1 <= s.len(),
        s.subrange(i, i + esc(k).len() + 1) == esc(k) + seq!['"'],
    ensures
        parse_str_body(s, i) == Some((k, i + esc(k).len() + 1)),
    decreases k.len(),
{
    let ek = esc(k);
    let sub = s.subrange(i, i + ek.len() + 1);
    assert forall|j: int| 0 <= j < ek.len() + 1 implies s[i + j] == (ek + seq!['"'])[j] by {
        assert(sub[j] == s[i + j]);
    }
    if k.len() == 0 {
        assert(ek =~= Seq::<char>::empty());
        assert(s[i + 0] == (ek + seq!['"'])[0]);
        assert((ek + seq!['"'])[0] == '"');
        assert(s[i] == '"');
        assert(k =~= Seq::<char>::empty());
    } else {
        lemma_esc_head(k);
        let ek1 = esc(k.skip(1));
        if k[0] == '"' || k[0] == '\\' {
            assert(ek == seq!['\\', k[0]] + ek1);
            assert(ek.len() == 2 + ek1.len());
            assert(s[i + 0] == (ek + seq!['"'])[0]);
            assert((ek + seq!['"'])[0] == ek[0]);
            assert(ek[0] == '\\');
            assert(s[i] == '\\');
            assert(s[i + 1] == (ek + seq!['"'])[1]);
            assert((ek + seq!['"'])[1] == ek[1]);
            assert(ek[1] == k[0]);
            assert(s[i + 1] == k[0]);
            assert(s.subrange(i + 2, i + 2 + ek1.len() + 1) =~= ek1 + seq!['"']) by {
                assert forall|j: int| 0 <= j < ek1.len() + 1 implies s.subrange(
                    i + 2,
                    i + 2 + ek1.len() + 1,
                )[j] == (ek1 + seq!['"'])[j] by {
                    assert(s.subrange(i + 2, i + 2 + ek1.len() + 1)[j] == s[i + 2 + j]);
                    assert(s[i + 2 + j] == (ek + seq!['"'])[2 + j]);
                    assert((ek + seq!['"'])[2 + j] == (ek1 + seq!['"'])[j]);
                }
            }
            lemma_parse_str_complete(s, i + 2, k.skip(1));
            assert(seq![s[i + 1]] + k.skip(1) =~= k);
        } else {
            assert(ek == seq![k[0]] + ek1);
            assert(ek.len() == 1 + ek1.len());
            assert(s[i + 0] == (ek + seq!['"'])[0]);
            assert((ek + seq!['"'])[0] == ek[0]);
            assert(ek[0] == k[0]);
            assert(s[i] == k[0]);
            assert(s[i] != '"' && s[i] != '\\');
            assert(s.subrange(i + 1, i + 1 + ek1.len() + 1) =~= ek1 + seq!['"']) by {
                assert forall|j: int| 0 <= j < ek1.len() + 1 implies s.subrange(
                    i + 1,
                    i + 1 + ek1.len() + 1,
                )[j] == (ek1 + seq!['"'])[j] by {
                    assert(s.subrange(i + 1, i + 1 + ek1.len() + 1)[j] == s[i + 1 + j]);
                    assert(s[i + 1 + j] == (ek + seq!['"'])[1 + j]);
                    assert((ek + seq!['"'])[1 + j] == (ek1 + seq!['"'])[j]);
                }
            }
            lemma_parse_str_complete(s, i + 1, k.skip(1));
            assert(seq![s[i]] + k.skip(1) =~= k);
        }
    }
}

proof fn lemma_dec_val_dec_digits(n: nat)
    ensures
        crate::strnum::dec_val(dec_digits(n)) == n,
    decreases n,
{
    if n < 10 {
        assert(dec_digits(n).drop_last() =~= Seq::<char>::empty());
        assert(crate::strnum::dec_val(Seq::<char>::empty()) == 0);
        assert(dec_digits(n).last() == digit_char(n));
        assert(crate::strnum::digit_val(digit_char(n)) == n);
    } else {
        lemma_dec_val_dec_digits(n / 10);
        assert(dec_digits(n).drop_last() =~= dec_digits(n / 10));
        assert(dec_digits(n).last() == digit_char(n % 10));
        assert(crate::strnum::digit_val(digit_char(n % 10)) == n % 10);
    }
}

proof fn lemma_dec_digits_first(n: nat)
    requires
        n >= 1,
    ensures
        dec_digits(n)[0] != '0',
    decreases n,
{
    if n >= 10 {
        lemma_dec_digits_first(n / 10);
        assert(dec_digits(n)[0] == dec_digits(n / 10)[0]);
    }
}

proof fn lemma_digit_run_exact(s: Seq<char>, i: int, e0: int)
    requires
        0 <= i <= e0 <= s.len(),
        forall|j: int| i <= j < e0 ==> crate::strnum::is_digit(#[trigger] s[j]),
        e0 == s.len() || !crate::strnum::is_digit(s[e0]),
    ensures
        digit_run_end(s, i) == e0,
{
    lemma_digit_run_bounds(s, i);
    let e = digit_run_end(s, i);
    if e < e0 {
        assert(crate::strnum::is_digit(s[e]));
        assert(false);
    }
    if e > e0 {
        assert(crate::strnum::is_digit(s[e0]));
        assert(false);
    }
}

proof fn lemma_parse_int_complete(s: Seq<char>, i: int, v: int)
    requires
        0 <= i,
        i + dec_int(v).len() <= s.len(),
        s.subrange(i, i + dec_int(v).len()) == dec_int(v),
        i + dec_int(v).len() == s.len() || !crate::strnum::is_digit(s[i + dec_int(v).len()]),
        i64::MIN <= v <= i64::MAX,
    ensures
        parse_int_at(s, i) == Some((v, i + dec_int(v).len())),
{
    let dv = dec_int(v);
    let sub = s.subrange(i, i + dv.len());
    assert forall|j: int| 0 <= j < dv.len() implies s[i + j] == dv[j] by {
        assert(sub[j] == s[i + j]);
    }
    let mag: nat = if v < 0 {
        (-v) as nat
    } else {
        v as nat
    };
    let dd = dec_digits(mag);
    lemma_dec_digits_all_digits(mag);
    lemma_dec_val_dec_digits(mag);
    let di = if v < 0 {
        i + 1
    } else {
        i
    };
    assert(s[i + 0] == dv[0]);
    if v < 0 {
        assert(dv == seq!['-'] + dd);
        assert(dv[0] == '-');
        assert(s[i] == '-');
        assert(mag >= 1);
        lemma_dec_digits_first(mag);
    } else {
        assert(dv == dd);
        assert(crate::strnum::is_digit(dv[0]));
        assert(s[i] == dv[0]);
        assert(s[i] != '-');
    }
    assert forall|j: int| di <= j < i + dv.len() implies crate::strnum::is_digit(
        #[trigger] s[j],
    ) by {
        assert(s[j] == dv[j - i]);
        if v < 0 {
            assert(dv[j - i] == dd[j - i - 1]);
        }
    }
    lemma_digit_run_exact(s, di, i + dv.len());
    let digits = s.subrange(di, i + dv.len());
    assert(digits =~= dd) by {
        assert forall|j: int| 0 <= j < dd.len() implies digits[j] == dd[j] by {
            assert(digits[j] == s[di + j]);
            assert(s[di + j] == dv[di + j - i]);
            if v < 0 {
                assert(dv[di + j - i] == dd[j]);
            }
        }
    }
    if digits.len() > 1 {
        assert(mag >= 1) by {
            if mag == 0 {
                assert(dd =~= seq![digit_char(0)]);
            }
        }
        lemma_dec_digits_first(mag);
        assert(digits[0] != '0');
    }
}

proof fn lemma_parse_value_complete(s: Seq<char>, i: int, v: JsonVal)
    requires
        0 <= i,
        val_in_range(v),
        i + enc_val(v).len() <= s.len(),
        s.subrange(i, i + enc_val(v).len()) == enc_val(v),
        i + enc_val(v).len() == s.len() || !crate::strnum::is_digit(s[i + enc_val(v).len()]),
    ensures
        parse_value_at(s, i) == Some((v, i + enc_val(v).len())),
{
    let ev = enc_val(v);
    let sub = s.subrange(i, i + ev.len());
    assert forall|j: int| 0 <= j < ev.len() implies s[i + j] == ev[j] by {
        assert(sub[j] == s[i + j]);
    }
    match v {
        JsonVal::Str(t) => {
            let ek = esc(t);
            assert(ev == seq!['"'] + ek + seq!['"']);
            assert(s[i + 0] == ev[0]);
            assert(ev[0] == '"');
            assert(s[i] == '"');
            assert(s.subrange(i + 1, i + 1 + ek.len() + 1) =~= ek + seq!['"']) by {
                assert forall|j: int| 0 <= j < ek.len() + 1 implies s.subrange(
                    i + 1,
                    i + 1 + ek.len() + 1,
                )[j] == (ek + seq!['"'])[j] by {
                    assert(s.subrange(i + 1, i + 1 + ek.len() + 1)[j] == s[i + 1 + j]);
                    assert(s[i + 1 + j] == ev[1 + j]);
                }
            }
            lemma_parse_str_complete(s, i + 1, t);
        },
        JsonVal::Int(n) => {
            assert(ev == dec_int(n));
            assert(s[i + 0] == ev[0]);
            if n < 0 {
                assert(ev[0] == '-');
                assert(s[i] == '-');
            } else {
                lemma_dec_digits_all_digits(n as nat);
                assert(crate::strnum::is_digit(ev[0]));
                assert(s[i] == ev[0]);
            }
            assert(s[i] != '"');
            lemma_parse_int_complete(s, i, n);
        },
    }
}

proof fn lemma_enc_val_head_not_ws(v: JsonVal)
    ensures
        enc_val(v).len() >= 1,
        !is_json_ws(enc_val(v)[0]),
{
    match v {
        JsonVal::Str(_) => {},
        JsonVal::Int(n) => {
            let mag: nat = if n < 0 {
                (-n) as nat
            } else {
                n as nat
            };
            lemma_dec_digits_all_digits(mag);
            if n >= 0 {
                assert(enc_val(v)[0] == dec_digits(mag)[0]);
                assert(crate::strnum::is_digit(enc_val(v)[0]));
            }
        },
    }
}

proof fn lemma_parse_members_complete(s: Seq<char>, i: int, fs: Seq<(Seq<char>, JsonVal)>)
    requires
        fs.len() >= 1,
        vals_in_range(fs),
        0 <= i,
        i + enc_entries(fs).len() + 1 <= s.len(),
        s.subrange(i, i + enc_entries(fs).len() + 1) == enc_entries(fs) + seq!['}'],
    ensures
        parse_members(s, i) == Some((fs, i + enc_entries(fs).len() + 1)),
    decreases fs.len(),
{
    let ee = enc_entries(fs);
    let sub = s.subrange(i, i + ee.len() + 1);
    assert forall|j: int| 0 <= j < ee.len() + 1 implies s[i + j] == (ee + seq!['}'])[j] by {
        assert(sub[j] == s[i + j]);
    }
    let k = fs[0].0;
    let v = fs[0].1;
    let entry = enc_entry(fs[0]);
    let ek = esc(k);
    let ev = enc_val(v);
    assert(entry == seq!['"'] + ek + seq!['"', ':'] + ev);
    assert(entry.len() == ek.len() + 3 + ev.len());
    let tail_len: int = if fs.len() == 1 {
        0
    } else {
        1 + enc_entries(fs.skip(1)).len() as int
    };
    assert(ee == (if fs.len() == 1 {
        entry
    } else {
        entry + seq![','] + enc_entries(fs.skip(1))
    }));
    assert(ee.len() == entry.len() + tail_len);
    assert forall|j: int| 0 <= j < entry.len() implies s[i + j] == entry[j] by {
        assert((ee + seq!['}'])[j] == ee[j]);
        if fs.len() > 1 {
            assert(ee[j] == (entry + seq![','] + enc_entries(fs.skip(1)))[j]);
        }
    }
    // the key string
    assert(s[i + 0] == entry[0]);
    assert(s[i] == entry[0]);
    assert(entry[0] == '"');
    assert(s.subrange(i + 1, i + 1 + ek.len() + 1) =~= ek + seq!['"']) by {
        assert forall|j: int| 0 <= j < ek.len() + 1 implies s.subrange(
            i + 1,
            i + 1 + ek.len() + 1,
        )[j] == (ek + seq!['"'])[j] by {
            assert(s.subrange(i + 1, i + 1 + ek.len() + 1)[j] == s[i + 1 + j]);
            assert(s[i + 1 + j] == entry[1 + j]);
            assert(entry[1 + j] == (ek + seq!['"'])[j]);
        }
    }
    lemma_parse_str_complete(s, i + 1, k);
    let p1 = i + ek.len() + 2;
    // the colon, with no whitespace to skip on either side
    assert(s[i + (ek.len() as int + 2)] == entry[ek.len() as int + 2]);
    assert(p1 == i + (ek.len() as int + 2));
    assert(s[p1] == entry[ek.len() as int + 2]);
    assert(entry[ek.len() as int + 2] == ':');
    assert(skip_ws(s, p1) == p1);
    let j3 = p1 + 1;
    lemma_enc_val_head_not_ws(v);
    assert(s[i + (ek.len() as int + 3)] == entry[ek.len() as int + 3]);
    assert(j3 == i + (ek.len() as int + 3));
    assert(s[j3] == entry[ek.len() as int + 3]);
    assert(entry[ek.len() as int + 3] == ev[0]);
    assert(skip_ws(s, j3) == j3);
    // the value, bounded by `,` or `}`
    assert(s.subrange(j3, j3 + ev.len()) =~= ev) by {
        assert forall|j: int| 0 <= j < ev.len() implies s.subrange(j3, j3 + ev.len())[j]
            == ev[j] by {
            assert(s.subrange(j3, j3 + ev.len())[j] == s[j3 + j]);
            assert(s[j3 + j] == entry[ek.len() as int + 3 + j]);
            assert(entry[ek.len() as int + 3 + j] == ev[j]);
        }
    }
    let p4 = j3 + ev.len();
    assert(p4 == i + entry.len());
    assert(s[i + entry.len() as int] == (ee + seq!['}'])[entry.len() as int]);
    let boundary = s[p4];
    assert(boundary == (ee + seq!['}'])[entry.len() as int]);
    if fs.len() == 1 {
        assert(boundary == '}');
    } else {
        assert(ee[entry.len() as int] == (entry + seq![','] + enc_entries(fs.skip(1)))[entry.len() as int]);
        assert(boundary == ',');
    }
    assert(!crate::strnum::is_digit(boundary));
    lemma_parse_value_complete(s, j3, v);
    assert(skip_ws(s, p4) == p4);
    if fs.len() == 1 {
        assert(parse_members(s, i) == Some((seq![(k, v)], p4 + 1)));
        assert(seq![(k, v)] =~= fs);
    } else {
        let fs1 = fs.skip(1);
        let ee1 = enc_entries(fs1);
        let j6 = p4 + 1;
        assert(ee1.len() >= 1) by {
            assert(enc_entry(fs1[0]).len() >= 1);
        }
        assert(s[i + (entry.len() as int + 1)] == (ee + seq!['}'])[entry.len() as int + 1]);
        assert(j6 == i + (entry.len() as int + 1));
        assert((ee + seq!['}'])[entry.len() as int + 1] == ee[entry.len() as int + 1]);
        assert(s[j6] == ee[entry.len() as int + 1]);
        assert(ee[entry.len() as int + 1] == (entry + seq![','] + ee1)[entry.len() as int + 1]);
        assert((entry + seq![','] + ee1)[entry.len() as int + 1] == ee1[0]);
        assert(ee1[0] == enc_entry(fs1[0])[0]);
        assert(enc_entry(fs1[0])[0] == '"');
        assert(skip_ws(s, j6) == j6);
        assert(s.subrange(j6, j6 + ee1.len() + 1) =~= ee1 + seq!['}']) by {
            assert forall|j: int| 0 <= j < ee1.len() + 1 implies s.subrange(
                j6,
                j6 + ee1.len() + 1,
            )[j] == (ee1 + seq!['}'])[j] by {
                assert(s.subrange(j6, j6 + ee1.len() + 1)[j] == s[j6 + j]);
                assert(s[j6 + j] == (ee + seq!['}'])[entry.len() as int + 1 + j]);
                if j < ee1.len() {
                    assert((ee + seq!['}'])[entry.len() as int + 1 + j] == ee[entry.len() as int + 1 + j]);
                    assert(ee[entry.len() as int + 1 + j] == (entry + seq![','] + ee1)[entry.len() as int + 1 + j]);
                    assert((entry + seq![','] + ee1)[entry.len() as int + 1 + j] == ee1[j]);
                } else {
                    assert((ee + seq!['}'])[ee.len() as int] == '}');
                }
            }
        }
        assert(vals_in_range(fs1)) by {
            assert forall|m: int| 0 <= m < fs1.len() implies val_in_range(
                (#[trigger] fs1[m]).1,
            ) by {
                assert(fs1[m] == fs[m + 1]);
            }
        }
        lemma_parse_members_complete(s, j6, fs1);
        assert(seq![(k, v)] + fs1 =~= fs);
        assert(j6 + ee1.len() + 1 == i + ee.len() + 1);
    }
}

/// Law (JSON round trip): a flat document produced by the encoder is
/// accepted by the decoder's grammar and parses back to exactly the fields
/// that were encoded, provided each integer fits the decoder's 64-bit
/// range — which every `JsonObject` value does.
pub proof fn lemma_json_round_trip(fs: Seq<(Seq<char>, JsonVal)>)
    requires
        vals_in_range(fs),
    ensures
        json_parse_spec(json_encode_spec(fs)) == Some(fs),
{
    let s = json_encode_spec(fs);
    let ee = enc_entries(fs);
    assert(s == seq!['{'] + ee + seq!['}']);
    assert(s.len() == ee.len() + 2);
    assert(s[0] == '{');
    assert(skip_ws(s, 0) == 0);
    if fs.len() == 0 {
        assert(ee =~= Seq::<char>::empty());
        assert(s[1] == '}');
        assert(skip_ws(s, 1) == 1);
        assert(skip_ws(s, 2) == 2);
    } else {
        assert(s[1] == ee[0]);
        assert(ee[0] == enc_entry(fs[0])[0]);
        assert(enc_entry(fs[0])[0] == '"');
        assert(skip_ws(s, 1) == 1);
        assert(s.subrange(1, ee.len() as int + 2) =~= ee + seq!['}']) by {
            assert forall|j: int| 0 <= j < ee.len() + 1 implies s.subrange(
                1,
                ee.len() as int + 2,
            )[j] == (ee + seq!['}'])[j] by {
                assert(s.subrange(1, ee.len() as int + 2)[j] == s[1 + j]);
                assert(s[1 + j] == (seq!['{'] + ee + seq!['}'])[1 + j]);
            }
        }
        lemma_parse_members_complete(s, 1, fs);
        assert(skip_ws(s, s.len() as int) == s.len());
    }
}

/// Law (JSON round trip, at the level of objects): decoding the encoding of
/// any object yields an object with the very same fields.
pub proof fn lemma_json_object_round_trip(o: JsonObject)
    ensures
        json_parse_spec(json_encode_spec(obj_view(o))) == Some(obj_view(o)),
{
    lemma_obj_view_in_range(o);
    lemma_json_round_trip(obj_view(o));
}

/// Decodes a flat JSON document, exactly as `json_parse_spec` describes:
/// whitespace around tokens is skipped; a malformed document, a value
/// outside the string and integer shapes, or trailing content fails the
/// decode, and nothing else does.
pub fn json_decode(s: &str) -> (r: Option<JsonObject>)
    ensures
        match r {
            Some(o) => json_parse_spec(s@) == Some(obj_view(o)),
            None => json_parse_spec(s@) is None,
        },
{
    let n = s.unicode_len();
    let i0 = skip_ws_exec(s, 0);
    if !(i0 < n && s.get_char(i0) == '{') {
        return None;
    }
    let i1 = skip_ws_exec(s, i0 + 1);
    if i1 < n && s.get_char(i1) == '}' {
        if skip_ws_exec(s, i1 + 1) == n {
            let o = JsonObject { fields: Vec::new() };
            proof {
                assert(obj_view(o) =~= Seq::<(Seq<char>, JsonVal)>::empty());
            }
            Some(o)
        } else {
            None
        }
    } else {
        match parse_members_exec(s, i1) {
            Some(p) => {
                if skip_ws_exec(s, p.1) == n {
                    Some(JsonObject { fields: p.0 })
                } else {
                    None
                }
            },
            None => None,
        }
    }
}

} // verus!
