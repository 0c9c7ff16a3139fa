//! An ordered header collection: name/value pairs in insertion order, names
//! compared case-insensitively, duplicate names allowed. `insert` overrides
//! the first entry of the same name in place; `append` always adds.

use vstd::prelude::*;

verus! {

use crate::strnum::{seq_ieq, str_ieq};

/// The model of a header collection: its name/value pairs, in order.
pub type HeaderSeq = Seq<(Seq<char>, Seq<char>)>;

pub struct Headers {
    entries: Vec<(String, String)>,
}

impl View for Headers {
    type V = HeaderSeq;

    closed spec fn view(&self) -> HeaderSeq {
        self.entries@.map_values(|p: (String, String)| (p.0@, p.1@))
    }
}

/// Index of the first entry whose name equals `name` case-insensitively,
/// or `-1` if there is none.
pub open spec fn find_idx(hs: HeaderSeq, name: Seq<char>) -> int
    decreases hs.len(),
{
    if hs.len() == 0 {
        -1
    } else if seq_ieq(hs[0].0, name) {
        0
    } else {
        let r = find_idx(hs.skip(1), name);
        if r < 0 {
            -1
        } else {
            r + 1
        }
    }
}

pub proof fn lemma_find_idx(hs: HeaderSeq, name: Seq<char>)
    ensures
        -1 <= find_idx(hs, name) < hs.len(),
        find_idx(hs, name) >= 0 ==> seq_ieq(hs[find_idx(hs, name)].0, name),
        find_idx(hs, name) >= 0 ==> forall|j: int|
            0 <= j < find_idx(hs, name) ==> !seq_ieq(hs[j].0, name),
        find_idx(hs, name) == -1 ==> forall|j: int|
            0 <= j < hs.len() ==> !seq_ieq(hs[j].0, name),
    decreases hs.len(),
{
    if hs.len() != 0 && !seq_ieq(hs[0].0, name) {
        lemma_find_idx(hs.skip(1), name);
        let r = find_idx(hs.skip(1), name);
        if r >= 0 {
            assert forall|j: int| 0 <= j < find_idx(hs, name) implies !seq_ieq(
                hs[j].0,
                name,
            ) by {
                if j > 0 {
                    assert(hs.skip(1)[j - 1] == hs[j]);
                }
            }
        } else {
            assert forall|j: int| 0 <= j < hs.len() implies !seq_ieq(hs[j].0, name) by {
                if j > 0 {
                    assert(hs.skip(1)[j - 1] == hs[j]);
                }
            }
        }
    }
}

/// What `insert` leaves behind: the first entry of the same name replaced in
/// place, or the pair appended when the name is new.
pub open spec fn insert_spec(hs: HeaderSeq, name: Seq<char>, value: Seq<char>) -> HeaderSeq {
    let i = find_idx(hs, name);
    if i < 0 {
        hs.push((name, value))
    } else {
        hs.update(i, (name, value))
    }
}

/// What `get` returns: the value of the first entry of the given name.
pub open spec fn get_spec(hs: HeaderSeq, name: Seq<char>) -> Option<Seq<char>> {
    let i = find_idx(hs, name);
    if i < 0 {
        None
    } else {
        Some(hs[i].1)
    }
}

impl Headers {
    /// An empty header collection.
    pub fn new() -> (r: Headers)
        ensures
            r@ == Seq::<(Seq<char>, Seq<char>)>::empty(),
    {
        let r = Headers { entries: Vec::new() };
        proof {
            assert(r@ =~= Seq::<(Seq<char>, Seq<char>)>::empty());
        }
        r
    }

    pub fn len(&self) -> (n: usize)
        ensures
            n == self@.len(),
    {
        self.entries.len()
    }

    /// The name and value of the entry at a position.
    pub fn entry(&self, i: usize) -> (r: (String, String))
        requires
            i < self@.len(),
        ensures
            r.0@ == self@[i as int].0,
            r.1@ == self@[i as int].1,
    {
        let p = &self.entries[i];
        (p.0.clone(), p.1.clone())
    }

    fn position_of(&self, name: &str) -> (r: Option<usize>)
        ensures
            match r {
                Some(i) => i == find_idx(self@, name@) && i < self@.len(),
                None => find_idx(self@, name@) == -1,
            },
    {
        let n = self.entries.len();
        let mut i: usize = 0;
        while i < n
            invariant
                i <= n,
                n == self@.len(),
                n == self.entries@.len(),
                forall|j: int| 0 <= j < i ==> !seq_ieq(self@[j].0, name@),
            decreases n - i,
        {
            if str_ieq(self.entries[i].0.as_str(), name) {
                proof {
                    lemma_find_idx(self@, name@);
                    let fi = find_idx(self@, name@);
                    assert(seq_ieq(self@[i as int].0, name@));
                }
                return Some(i);
            }
            i = i + 1;
        }
        proof {
            lemma_find_idx(self@, name@);
            let fi = find_idx(self@, name@);
            if fi >= 0 {
                assert(seq_ieq(self@[fi].0, name@));
            }
        }
        None
    }

    /// Sets a header: replaces the first entry of the same name in place,
    /// or appends the pair when the name is new.
    pub fn insert(&mut self, name: &str, value: &str)
        ensures
            final(self)@ == insert_spec(old(self)@, name@, value@),
    {
        let pos = self.position_of(name);
        match pos {
            Some(i) => {
                self.entries.set(i, (name.to_owned(), value.to_owned()));
                proof {
                    assert(self@ =~= insert_spec(old(self)@, name@, value@));
                }
            },
            None => {
                self.entries.push((name.to_owned(), value.to_owned()));
                proof {
                    assert(self@ =~= insert_spec(old(self)@, name@, value@));
                }
            },
        }
    }

    /// Appends a header entry, keeping any entries of the same name.
    pub fn append(&mut self, name: &str, value: &str)
        ensures
            final(self)@ == old(self)@.push((name@, value@)),
    {
        self.entries.push((name.to_owned(), value.to_owned()));
        proof {
            assert(self@ =~= old(self)@.push((name@, value@)));
        }
    }

    /// The value of the first entry of the given name, compared
    /// case-insensitively.
    pub fn get(&self, name: &str) -> (r: Option<String>)
        ensures
            match r {
                Some(v) => get_spec(self@, name@) == Some(v@),
                None => get_spec(self@, name@) is None,
            },
    {
        let pos = self.position_of(name);
        match pos {
            Some(i) => Some(self.entries[i].1.clone()),
            None => None,
        }
    }

    /// Whether some entry has the given name.
    pub fn contains(&self, name: &str) -> (r: bool)
        ensures
            r == (get_spec(self@, name@) is Some),
    {
        let pos = self.position_of(name);
        pos.is_some()
    }

    /// A copy with the same entries.
    pub fn duplicate(&self) -> (r: Headers)
        ensures
            r@ == self@,
    {
        let n = self.entries.len();
        let mut entries: Vec<(String, String)> = Vec::new();
        let mut i: usize = 0;
        while i < n
            invariant
                i <= n,
                n == self.entries@.len(),
                entries@.len() == i,
                forall|j: int|
                    0 <= j < i ==> (#[trigger] entries@[j]).0@ == self.entries@[j].0@
                        && entries@[j].1@ == self.entries@[j].1@,
            decreases n - i,
        {
            let p = &self.entries[i];
            entries.push((p.0.clone(), p.1.clone()));
            i = i + 1;
        }
        let r = Headers { entries };
        proof {
            assert(r@ =~= self@);
        }
        r
    }
}

} // verus!
