//! Decimal rendering and parsing of integers, and case-insensitive
//! character comparison, with exact specifications.

use vstd::prelude::*;

verus! {

/// The character for a single decimal digit value.
pub open spec fn digit_char(d: nat) -> char {
    if d == 0 {
        '0'
    } else if d == 1 {
        '1'
    } else if d == 2 {
        '2'
    } else if d == 3 {
        '3'
    } else if d == 4 {
        '4'
    } else if d == 5 {
        '5'
    } else if d == 6 {
        '6'
    } else if d == 7 {
        '7'
    } else if d == 8 {
        '8'
    } else {
        '9'
    }
}

/// Decimal digit sequence of a natural number, most significant digit first,
/// with no leading zeros.
pub open spec fn dec_digits(n: nat) -> Seq<char>
    decreases n,
{
    if n < 10 {
        seq![digit_char(n)]
    } else {
        dec_digits(n / 10) + seq![digit_char(n % 10)]
    }
}

/// Decimal rendering of a signed integer: a `-` sign followed by the digits
/// of the magnitude for negative values.
pub open spec fn dec_int(i: int) -> Seq<char> {
    if i < 0 {
        seq!['-'] + dec_digits((-i) as nat)
    } else {
        dec_digits(i as nat)
    }
}

/// Whether a character is a decimal digit.
pub open spec fn is_digit(c: char) -> bool {
    48 <= c as u32 && c as u32 <= 57
}

/// The numeric value of a decimal digit character.
pub open spec fn digit_val(c: char) -> nat {
    (c as u32 - 48) as nat
}

/// Whether every character of the sequence is a decimal digit.
pub open spec fn all_digits(s: Seq<char>) -> bool {
    forall|i: int| 0 <= i < s.len() ==> is_digit(#[trigger] s[i])
}

/// The value of a sequence of decimal digit characters, read base 10.
pub open spec fn dec_val(s: Seq<char>) -> nat
    decreases s.len(),
{
    if s.len() == 0 {
        0
    } else {
        dec_val(s.drop_last()) * 10 + digit_val(s.last())
    }
}

/// The value of a nonempty all-digit string, when it is one and fits the
/// inclusive cap.
pub open spec fn digits_capped(s: Seq<char>, cap: nat) -> Option<nat> {
    if s.len() > 0 && all_digits(s) && dec_val(s) <= cap {
        Some(dec_val(s))
    } else {
        None
    }
}

/// What parsing an unsigned 32-bit decimal numeral returns: an optional `+`
/// sign followed by a nonempty all-digit string whose value fits, and
/// nothing otherwise.
pub open spec fn parse_u32_spec(s: Seq<char>) -> Option<u32> {
    let digits = if s.len() > 0 && s[0] == '+' {
        s.skip(1)
    } else {
        s
    };
    match digits_capped(digits, u32::MAX as nat) {
        Some(v) => Some(v as u32),
        None => None,
    }
}

/// What parsing a signed 32-bit decimal numeral returns: an optional `-` or
/// `+` sign followed by a nonempty all-digit string whose signed value fits.
pub open spec fn parse_i32_spec(s: Seq<char>) -> Option<i32> {
    if s.len() > 0 && s[0] == '-' {
        match digits_capped(s.skip(1), 0x8000_0000) {
            Some(v) => Some((-(v as int)) as i32),
            None => None,
        }
    } else {
        let digits = if s.len() > 0 && s[0] == '+' {
            s.skip(1)
        } else {
            s
        };
        match digits_capped(digits, i32::MAX as nat) {
            Some(v) => Some(v as i32),
            None => None,
        }
    }
}

/// The code point of a character with ASCII upper-case letters folded to
/// lower case; all other characters are left as they are.
pub open spec fn lower_u32(c: char) -> int {
    if 65 <= c as u32 && c as u32 <= 90 {
        c as u32 + 32
    } else {
        c as u32 as int
    }
}

/// Case-insensitive equality of two character sequences (ASCII letters only).
pub open spec fn seq_ieq(a: Seq<char>, b: Seq<char>) -> bool {
    a.len() == b.len() && (forall|i: int|
        0 <= i < a.len() ==> lower_u32(a[i]) == lower_u32(#[trigger] b[i]))
}

fn digit_str(d: u32) -> (r: &'static str)
    requires
        d < 10,
    ensures
        r@ == seq![digit_char(d as nat)],
{
    proof {
        reveal_strlit("0");
        reveal_strlit("1");
        reveal_strlit("2");
        reveal_strlit("3");
        reveal_strlit("4");
        reveal_strlit("5");
        reveal_strlit("6");
        reveal_strlit("7");
        reveal_strlit("8");
        reveal_strlit("9");
    }
    match d {
        0 => "0",
        1 => "1",
        2 => "2",
        3 => "3",
        4 => "4",
        5 => "5",
        6 => "6",
        7 => "7",
        8 => "8",
        _ => "9",
    }
}

/// Renders an unsigned integer in decimal.
pub fn u32_to_dec(n: u32) -> (s: String)
    ensures
        s@ == dec_digits(n as nat),
    decreases n,
{
    if n < 10 {
        digit_str(n).to_owned()
    } else {
        let mut s = u32_to_dec(n / 10);
        s.append(digit_str(n % 10));
        s
    }
}

/// Renders an unsigned 64-bit integer in decimal.
pub fn u64_to_dec(n: u64) -> (s: String)
    ensures
        s@ == dec_digits(n as nat),
    decreases n,
{
    if n < 10 {
        digit_str(n as u32).to_owned()
    } else {
        let mut s = u64_to_dec(n / 10);
        s.append(digit_str((n % 10) as u32));
        s
    }
}

/// Renders a signed 64-bit integer in decimal.
pub fn i64_to_dec(n: i64) -> (s: String)
    ensures
        s@ == dec_int(n as int),
{
    if n >= 0 {
        u64_to_dec(n as u64)
    } else {
        let mag: u64 = if n == i64::MIN {
            0x8000_0000_0000_0000u64
        } else {
            (-n) as u64
        };
        proof {
            reveal_strlit("-");
        }
        let mut s = String::from_str("-");
        let digits = u64_to_dec(mag);
        s.append(digits.as_str());
        s
    }
}

/// Renders a signed integer in decimal.
pub fn i32_to_dec(n: i32) -> (s: String)
    ensures
        s@ == dec_int(n as int),
{
    if n >= 0 {
        u32_to_dec(n as u32)
    } else {
        let mag: u32 = if n == i32::MIN {
            0x8000_0000u32
        } else {
            (-n) as u32
        };
        proof {
            reveal_strlit("-");
        }
        let mut s = String::from_str("-");
        let digits = u32_to_dec(mag);
        s.append(digits.as_str());
        s
    }
}

pub proof fn lemma_dec_val_take_succ(s: Seq<char>, i: int)
    requires
        0 <= i < s.len(),
    ensures
        dec_val(s.take(i + 1)) == dec_val(s.take(i)) * 10 + digit_val(s[i]),
{
    assert(s.take(i + 1).drop_last() =~= s.take(i));
    assert(s.take(i + 1).last() == s[i]);
}

pub proof fn lemma_dec_val_take_mono(s: Seq<char>, i: int, j: int)
    requires
        0 <= i <= j <= s.len(),
    ensures
        dec_val(s.take(i)) <= dec_val(s.take(j)),
    decreases j - i,
{
    if i < j {
        lemma_dec_val_take_mono(s, i, j - 1);
        lemma_dec_val_take_succ(s, j - 1);
    }
}

/// Parses a run of decimal digits with an inclusive value cap; returns the
/// digits' value exactly when the whole string is a nonempty digit run whose
/// value is at most `cap`.
fn parse_digits_capped(s: &str, cap: u32) -> (r: Option<u32>)
    ensures
        r == (if s@.len() > 0 && all_digits(s@) && dec_val(s@) <= cap {
            Some(dec_val(s@) as u32)
        } else {
            None::<u32>
        }),
{
    let n = s.unicode_len();
    if n == 0 {
        return None;
    }
    let mut acc: u32 = 0;
    let mut i: usize = 0;
    while i < n
        invariant
            i <= n,
            n == s@.len(),
            all_digits(s@.take(i as int)),
            acc == dec_val(s@.take(i as int)),
            acc <= cap,
        decreases n - i,
    {
        let c = s.get_char(i);
        let u = c as u32;
        if u < 48 || u > 57 {
            assert(!all_digits(s@));
            return None;
        }
        let d = u - 48;
        proof {
            lemma_dec_val_take_succ(s@, i as int);
        }
        if (acc as u64) * 10 + (d as u64) > cap as u64 {
            proof {
                lemma_dec_val_take_mono(s@, i as int + 1, n as int);
                assert(s@.take(n as int) =~= s@);
            }
            return None;
        }
        acc = acc * 10 + d;
        i = i + 1;
    }
    proof {
        assert(s@.take(n as int) =~= s@);
    }
    Some(acc)
}

/// Parses an unsigned 32-bit decimal numeral, exactly as `parse_u32_spec`
/// describes.
pub fn parse_u32(s: &str) -> (r: Option<u32>)
    ensures
        r == parse_u32_spec(s@),
{
    let n = s.unicode_len();
    if n > 0 && s.get_char(0) == '+' {
        let digits = s.substring_char(1, n);
        proof {
            assert(digits@ =~= s@.skip(1));
        }
        parse_digits_capped(digits, u32::MAX)
    } else {
        parse_digits_capped(s, u32::MAX)
    }
}

/// Parses a signed 32-bit decimal numeral, exactly as `parse_i32_spec`
/// describes.
pub fn parse_i32(s: &str) -> (r: Option<i32>)
    ensures
        r == parse_i32_spec(s@),
{
    let n = s.unicode_len();
    if n > 0 && s.get_char(0) == '-' {
        let mag = s.substring_char(1, n);
        proof {
            assert(mag@ =~= s@.skip(1));
        }
        match parse_digits_capped(mag, 0x8000_0000u32) {
            Some(v) => {
                if v == 0x8000_0000u32 {
                    Some(i32::MIN)
                } else {
                    Some(-(v as i32))
                }
            },
            None => None,
        }
    } else if n > 0 && s.get_char(0) == '+' {
        let digits = s.substring_char(1, n);
        proof {
            assert(digits@ =~= s@.skip(1));
        }
        match parse_digits_capped(digits, 0x7FFF_FFFFu32) {
            Some(v) => Some(v as i32),
            None => None,
        }
    } else {
        match parse_digits_capped(s, 0x7FFF_FFFFu32) {
            Some(v) => Some(v as i32),
            None => None,
        }
    }
}

/// Compares two strings for character-for-character equality.
pub fn str_eq(a: &str, b: &str) -> (r: bool)
    ensures
        r == (a@ == b@),
{
    let alen = a.unicode_len();
    let blen = b.unicode_len();
    if alen != blen {
        proof {
            assert(a@ != b@);
        }
        return false;
    }
    let mut i: usize = 0;
    while i < alen
        invariant
            i <= alen,
            alen == a@.len(),
            blen == b@.len(),
            alen == blen,
            forall|j: int| 0 <= j < i ==> a@[j] == b@[j],
        decreases alen - i,
    {
        if a.get_char(i) != b.get_char(i) {
            proof {
                assert(a@ != b@);
            }
            return false;
        }
        i = i + 1;
    }
    proof {
        assert(a@ =~= b@);
    }
    true
}

/// Compares two strings case-insensitively over ASCII letters.
pub fn str_ieq(a: &str, b: &str) -> (r: bool)
    ensures
        r == seq_ieq(a@, b@),
{
    let alen = a.unicode_len();
    let blen = b.unicode_len();
    if alen != blen {
        return false;
    }
    let mut i: usize = 0;
    while i < alen
        invariant
            i <= alen,
            alen == a@.len(),
            blen == b@.len(),
            alen == blen,
            forall|j: int| 0 <= j < i ==> lower_u32(a@[j]) == lower_u32(#[trigger] b@[j]),
        decreases alen - i,
    {
        let ca = a.get_char(i);
        let cb = b.get_char(i);
        let ua = if ca as u32 >= 65 && ca as u32 <= 90 {
            ca as u32 + 32
        } else {
            ca as u32
        };
        let ub = if cb as u32 >= 65 && cb as u32 <= 90 {
            cb as u32 + 32
        } else {
            cb as u32
        };
        if ua != ub {
            return false;
        }
        i = i + 1;
    }
    true
}

} // verus!
