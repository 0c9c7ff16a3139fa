//! Splitting and trimming of character sequences, with exact specifications:
//! the separators of the query string (`&`, `=`), of the `Cookie` header
//! (`;`, `=`) and of the request path (`/`).

use vstd::prelude::*;

verus! {

/// The views of a sequence of strings.
pub open spec fn views_of(v: Seq<String>) -> Seq<Seq<char>> {
    v.map_values(|x: String| x@)
}

/// Splitting on a separator character: the fields between occurrences of
/// `sep`, in order. The result always has one more field than there are
/// separators; an empty input gives one empty field.
pub open spec fn split_on(s: Seq<char>, sep: char) -> Seq<Seq<char>>
    decreases s.len(),
{
    if s.len() == 0 {
        seq![Seq::<char>::empty()]
    } else if s[0] == sep {
        seq![Seq::<char>::empty()] + split_on(s.skip(1), sep)
    } else {
        let rest = split_on(s.skip(1), sep);
        seq![seq![s[0]] + rest[0]] + rest.skip(1)
    }
}

pub proof fn lemma_split_on_len(s: Seq<char>, sep: char)
    ensures
        split_on(s, sep).len() >= 1,
    decreases s.len(),
{
    if s.len() != 0 {
        lemma_split_on_len(s.skip(1), sep);
    }
}

/// Index of the first occurrence of `c` in `s`, or `-1` if there is none.
pub open spec fn first_index(s: Seq<char>, c: char) -> int
    decreases s.len(),
{
    if s.len() == 0 {
        -1
    } else if s[0] == c {
        0
    } else {
        let r = first_index(s.skip(1), c);
        if r < 0 {
            -1
        } else {
            r + 1
        }
    }
}

pub proof fn lemma_first_index(s: Seq<char>, c: char)
    ensures
        -1 <= first_index(s, c) < s.len(),
        first_index(s, c) >= 0 ==> s[first_index(s, c)] == c,
        first_index(s, c) >= 0 ==> forall|j: int|
            0 <= j < first_index(s, c) ==> s[j] != c,
        first_index(s, c) == -1 ==> forall|j: int| 0 <= j < s.len() ==> s[j] != c,
    decreases s.len(),
{
    if s.len() != 0 && s[0] != c {
        lemma_first_index(s.skip(1), c);
        let r = first_index(s.skip(1), c);
        if r >= 0 {
            assert forall|j: int| 0 <= j < first_index(s, c) implies s[j] != c by {
                if j > 0 {
                    assert(s.skip(1)[j - 1] == s[j]);
                }
            }
        } else {
            assert forall|j: int| 0 <= j < s.len() implies s[j] != c by {
                if j > 0 {
                    assert(s.skip(1)[j - 1] == s[j]);
                }
            }
        }
    }
}

/// Splitting on the first occurrence of a separator: the part before it and,
/// when the separator occurs at all, the part after it.
pub open spec fn split_first(s: Seq<char>, sep: char) -> (Seq<char>, Option<Seq<char>>) {
    let i = first_index(s, sep);
    if i < 0 {
        (s, None)
    } else {
        (s.take(i), Some(s.skip(i + 1)))
    }
}

/// Whether a character counts as trimmable padding (space or tab).
pub open spec fn is_pad(c: char) -> bool {
    c == ' ' || c == '\t'
}

/// The sequence with leading padding removed.
pub open spec fn trim_start_spec(s: Seq<char>) -> Seq<char>
    decreases s.len(),
{
    if s.len() > 0 && is_pad(s[0]) {
        trim_start_spec(s.skip(1))
    } else {
        s
    }
}

/// The sequence with trailing padding removed.
pub open spec fn trim_end_spec(s: Seq<char>) -> Seq<char>
    decreases s.len(),
{
    if s.len() > 0 && is_pad(s.last()) {
        trim_end_spec(s.drop_last())
    } else {
        s
    }
}

/// The sequence with leading and trailing padding removed.
pub open spec fn trim_spec(s: Seq<char>) -> Seq<char> {
    trim_end_spec(trim_start_spec(s))
}

/// Splits a string on every occurrence of a separator, exactly as
/// `split_on` describes.
pub fn split_str(s: &str, sep: char) -> (r: Vec<String>)
    ensures
        views_of(r@) == split_on(s@, sep),
{
    let n = s.unicode_len();
    let mut parts: Vec<String> = Vec::new();
    let mut start: usize = 0;
    let mut i: usize = 0;
    proof {
        assert(s@.skip(0) =~= s@);
    }
    while i < n
        invariant
            start <= i <= n,
            n == s@.len(),
            split_on(s@, sep) =~= views_of(parts@) + seq![
                s@.subrange(start as int, i as int) + split_on(s@.skip(i as int), sep)[0],
            ] + split_on(s@.skip(i as int), sep).skip(1),
        decreases n - i,
    {
        let ghost tail = s@.skip(i as int);
        let ghost tail1 = s@.skip(i as int + 1);
        proof {
            assert(tail[0] == s@[i as int]);
            assert(tail.skip(1) =~= tail1);
            lemma_split_on_len(tail1, sep);
        }
        let c = s.get_char(i);
        if c == sep {
            proof {
                assert(split_on(tail, sep) == seq![Seq::<char>::empty()] + split_on(tail1, sep));
                assert(split_on(tail, sep)[0] =~= Seq::<char>::empty());
                assert(split_on(tail, sep).skip(1) =~= split_on(tail1, sep));
            }
            let piece = s.substring_char(start, i).to_owned();
            proof {
                assert(s@.subrange(start as int, i as int) + Seq::<char>::empty() =~= s@.subrange(
                    start as int,
                    i as int,
                ));
                assert(views_of(parts@.push(piece)) =~= views_of(parts@).push(piece@));
            }
            parts.push(piece);
            i = i + 1;
            start = i;
            proof {
                assert(s@.subrange(start as int, i as int) =~= Seq::<char>::empty());
                lemma_split_on_len(s@.skip(i as int), sep);
                assert(split_on(s@, sep) =~= views_of(parts@) + seq![
                    s@.subrange(start as int, i as int) + split_on(s@.skip(i as int), sep)[0],
                ] + split_on(s@.skip(i as int), sep).skip(1));
            }
        } else {
            proof {
                let r = split_on(tail1, sep);
                assert(split_on(tail, sep) == seq![seq![tail[0]] + r[0]] + r.skip(1));
                assert(split_on(tail, sep)[0] == seq![tail[0]] + r[0]);
                assert(split_on(tail, sep).skip(1) =~= r.skip(1));
                assert(s@.subrange(start as int, i as int + 1) =~= s@.subrange(
                    start as int,
                    i as int,
                ) + seq![s@[i as int]]);
                assert(s@.subrange(start as int, i as int + 1) + r[0] =~= s@.subrange(
                    start as int,
                    i as int,
                ) + split_on(tail, sep)[0]);
            }
            i = i + 1;
            proof {
                assert(split_on(s@, sep) =~= views_of(parts@) + seq![
                    s@.subrange(start as int, i as int) + split_on(s@.skip(i as int), sep)[0],
                ] + split_on(s@.skip(i as int), sep).skip(1));
            }
        }
    }
    let last = s.substring_char(start, n).to_owned();
    proof {
        assert(s@.skip(n as int) =~= Seq::<char>::empty());
        assert(s@.subrange(start as int, n as int) + Seq::<char>::empty() =~= s@.subrange(
            start as int,
            n as int,
        ));
        assert(views_of(parts@.push(last)) =~= views_of(parts@).push(last@));
    }
    parts.push(last);
    proof {
        assert(views_of(parts@) =~= split_on(s@, sep));
    }
    parts
}

/// Splits a string on the first occurrence of a separator, exactly as
/// `split_first` describes.
pub fn split_first_str(s: &str, sep: char) -> (r: (String, Option<String>))
    ensures
        r.0@ == split_first(s@, sep).0,
        match r.1 {
            Some(after) => split_first(s@, sep).1 == Some(after@),
            None => split_first(s@, sep).1 is None,
        },
{
    let n = s.unicode_len();
    let mut i: usize = 0;
    while i < n
        invariant
            i <= n,
            n == s@.len(),
            forall|j: int| 0 <= j < i ==> s@[j] != sep,
        decreases n - i,
    {
        let c = s.get_char(i);
        if c == sep {
            proof {
                lemma_first_index(s@, sep);
                assert(first_index(s@, sep) == i as int) by {
                    let fi = first_index(s@, sep);
                    assert(s@[i as int] == sep);
                }
            }
            let before = s.substring_char(0, i).to_owned();
            let after = s.substring_char(i + 1, n).to_owned();
            proof {
                assert(s@.take(i as int) =~= s@.subrange(0, i as int));
                assert(s@.skip(i as int + 1) =~= s@.subrange(i as int + 1, n as int));
            }
            return (before, Some(after));
        }
        i = i + 1;
    }
    proof {
        lemma_first_index(s@, sep);
        assert(first_index(s@, sep) == -1) by {
            let fi = first_index(s@, sep);
            if fi >= 0 {
                assert(s@[fi] == sep);
            }
        }
    }
    (s.to_owned(), None)
}

/// Removes leading and trailing spaces and tabs, exactly as `trim_spec`
/// describes.
pub fn trim_str(s: &str) -> (r: String)
    ensures
        r@ == trim_spec(s@),
{
    let n = s.unicode_len();
    let mut lo: usize = 0;
    proof {
        assert(s@.skip(0) =~= s@);
    }
    while lo < n
        invariant
            lo <= n,
            n == s@.len(),
            trim_start_spec(s@) == trim_start_spec(s@.skip(lo as int)),
        ensures
            lo <= n,
            n == s@.len(),
            trim_start_spec(s@) == s@.skip(lo as int),
        decreases n - lo,
    {
        let ghost tail = s@.skip(lo as int);
        proof {
            assert(tail[0] == s@[lo as int]);
            assert(tail.skip(1) =~= s@.skip(lo as int + 1));
        }
        let c = s.get_char(lo);
        if c == ' ' || c == '\t' {
            lo = lo + 1;
        } else {
            break;
        }
    }
    let ghost st = s@.skip(lo as int);
    let mut hi: usize = n;
    proof {
        assert(s@.subrange(lo as int, n as int) =~= st);
    }
    while hi > lo
        invariant
            lo <= hi <= n,
            n == s@.len(),
            trim_end_spec(st) == trim_end_spec(s@.subrange(lo as int, hi as int)),
        ensures
            lo <= hi <= n,
            n == s@.len(),
            trim_end_spec(st) == s@.subrange(lo as int, hi as int),
        decreases hi,
    {
        let ghost cur = s@.subrange(lo as int, hi as int);
        proof {
            assert(cur.last() == s@[hi as int - 1]);
            assert(cur.drop_last() =~= s@.subrange(lo as int, hi as int - 1));
        }
        let c = s.get_char(hi - 1);
        if c == ' ' || c == '\t' {
            hi = hi - 1;
        } else {
            break;
        }
    }
    proof {
        assert(s@.subrange(lo as int, hi as int) =~= s@.skip(lo as int).take(
            hi as int - lo as int,
        ));
    }
    s.substring_char(lo, hi).to_owned()
}

} // verus!
