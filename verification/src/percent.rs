//! Percent-decoding of URL-encoded text, over the UTF-8 bytes of the input.
//! Query and form values additionally decode `+` as a space.

use vstd::prelude::*;

verus! {

use vstd::utf8::{decode_utf8, encode_utf8, valid_utf8};

/// The value of one hexadecimal digit byte, if it is one.
pub open spec fn hex_val(b: u8) -> Option<u8> {
    if 48 <= b && b <= 57 {
        Some((b - 48) as u8)
    } else if 65 <= b && b <= 70 {
        Some((b - 65 + 10) as u8)
    } else if 97 <= b && b <= 102 {
        Some((b - 97 + 10) as u8)
    } else {
        None
    }
}

/// Percent-decoding over bytes: `%XX` becomes the byte with hexadecimal
/// value `XX`; with `plus_space`, `+` becomes a space; every other byte is
/// kept. A `%` not followed by two hexadecimal digits is a decoding error.
pub open spec fn pct_decode_bytes(s: Seq<u8>, plus_space: bool) -> Option<Seq<u8>>
    decreases s.len(),
{
    if s.len() == 0 {
        Some(Seq::empty())
    } else if s[0] == 37 {
        if s.len() >= 3 && hex_val(s[1]) is Some && hex_val(s[2]) is Some {
            match (hex_val(s[1]), hex_val(s[2]), pct_decode_bytes(s.skip(3), plus_space)) {
                (Some(hi), Some(lo), Some(rest)) => Some(seq![(hi * 16 + lo) as u8] + rest),
                _ => None,
            }
        } else {
            None
        }
    } else {
        let b = if plus_space && s[0] == 43 {
            32u8
        } else {
            s[0]
        };
        match pct_decode_bytes(s.skip(1), plus_space) {
            Some(rest) => Some(seq![b] + rest),
            None => None,
        }
    }
}

/// Percent-decoding of a string: its UTF-8 bytes are decoded, and the result
/// must again be valid UTF-8.
pub open spec fn pct_decode_str(s: Seq<char>, plus_space: bool) -> Option<Seq<char>> {
    match pct_decode_bytes(encode_utf8(s), plus_space) {
        Some(b) => if valid_utf8(b) {
            Some(decode_utf8(b))
        } else {
            None
        },
        None => None,
    }
}

/// Relies on `String::from_utf8`: it succeeds exactly on valid UTF-8 and
/// the returned string's bytes are the input bytes.
#[verifier::external_body]
pub(crate) fn string_from_utf8(v: Vec<u8>) -> (r: Option<String>)
    ensures
        r is Some <==> valid_utf8(v@),
        match r {
            Some(t) => t@ == decode_utf8(v@),
            None => true,
        },
{
    String::from_utf8(v).ok()
}

fn hex_digit(b: u8) -> (r: Option<u8>)
    ensures
        r == hex_val(b),
{
    if 48 <= b && b <= 57 {
        Some(b - 48)
    } else if 65 <= b && b <= 70 {
        Some(b - 65 + 10)
    } else if 97 <= b && b <= 102 {
        Some(b - 97 + 10)
    } else {
        None
    }
}

proof fn lemma_skip_skip(s: Seq<u8>, i: int, k: int)
    requires
        0 <= i,
        0 <= k,
        i + k <= s.len(),
    ensures
        s.skip(i).skip(k) =~= s.skip(i + k),
{
}

/// Percent-decodes the bytes of a string, exactly as `pct_decode_bytes`
/// describes; fails on a malformed `%` escape.
pub fn percent_decode_bytes(s: &str, plus_space: bool) -> (r: Option<Vec<u8>>)
    ensures
        match r {
            Some(v) => pct_decode_bytes(encode_utf8(s@), plus_space) == Some(v@),
            None => pct_decode_bytes(encode_utf8(s@), plus_space) is None,
        },
{
    let bytes = s.as_bytes_vec();
    let n = bytes.len();
    let mut out: Vec<u8> = Vec::new();
    let mut i: usize = 0;
    proof {
        assert(bytes@.skip(0) =~= bytes@);
        match pct_decode_bytes(bytes@, plus_space) {
            Some(rest) => {
                assert(out@ + rest =~= rest);
            },
            None => {},
        }
    }
    while i < n
        invariant
            i <= n,
            n == bytes.len(),
            bytes@ == encode_utf8(s@),
            match pct_decode_bytes(bytes@.skip(i as int), plus_space) {
                Some(rest) => pct_decode_bytes(bytes@, plus_space) == Some(out@ + rest),
                None => pct_decode_bytes(bytes@, plus_space) is None,
            },
        decreases n - i,
    {
        let ghost tail = bytes@.skip(i as int);
        assert(tail[0] == bytes@[i as int]);
        let b = bytes[i];
        if b == 37 {
            if n - i < 3 {
                assert(tail.len() < 3);
                return None;
            }
            let h = hex_digit(bytes[i + 1]);
            let l = hex_digit(bytes[i + 2]);
            assert(tail[1] == bytes@[i as int + 1] && tail[2] == bytes@[i as int + 2]);
            match (h, l) {
                (Some(hi), Some(lo)) => {
                    proof {
                        lemma_skip_skip(bytes@, i as int, 3);
                    }
                    out.push(hi * 16 + lo);
                    i = i + 3;
                },
                _ => {
                    return None;
                },
            }
        } else {
            let c = if plus_space && b == 43 {
                32u8
            } else {
                b
            };
            proof {
                lemma_skip_skip(bytes@, i as int, 1);
            }
            out.push(c);
            i = i + 1;
        }
    }
    proof {
        assert(bytes@.skip(n as int) =~= Seq::<u8>::empty());
        assert(out@ + Seq::<u8>::empty() =~= out@);
    }
    Some(out)
}

/// Percent-decodes a string, exactly as `pct_decode_str` describes: a
/// malformed `%` escape or a decoded byte sequence that is not valid UTF-8
/// is a decoding error.
pub fn percent_decode(s: &str, plus_space: bool) -> (r: Option<String>)
    ensures
        r is Some <==> pct_decode_str(s@, plus_space) is Some,
        match r {
            Some(t) => pct_decode_str(s@, plus_space) == Some(t@),
            None => true,
        },
{
    match percent_decode_bytes(s, plus_space) {
        Some(v) => string_from_utf8(v),
        None => None,
    }
}

} // verus!
