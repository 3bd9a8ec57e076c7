//! Header fields by name.

use crate::assoc;
use crate::text;
use vstd::prelude::*;

verus! {

/// The fields that an executable list holds.
pub open spec fn entries_view(v: Seq<(String, String)>) -> Seq<(Seq<char>, Seq<char>)> {
    Seq::new(v.len(), |i: int| (v[i].0@, v[i].1@))
}

/// `a` with each field of `b`, in order, put in.
pub open spec fn extended(
    a: Seq<(Seq<char>, Seq<char>)>,
    b: Seq<(Seq<char>, Seq<char>)>,
) -> Seq<(Seq<char>, Seq<char>)>
    decreases b.len(),
{
    if b.len() == 0 {
        a
    } else {
        assoc::set(extended(a, b.drop_last()), b.last().0, b.last().1)
    }
}

/// The bytes of all names and values, and `extra` for each field.
pub open spec fn total_bytes(fields: Seq<(Seq<char>, Seq<char>)>, extra: nat) -> nat
    decreases fields.len(),
{
    if fields.len() == 0 {
        0
    } else {
        total_bytes(fields.drop_last(), extra) + vstd::utf8::encode_utf8(fields.last().0).len()
            + vstd::utf8::encode_utf8(fields.last().1).len() + extra
    }
}

/// `n`, at most what a `usize` holds.
pub open spec fn bounded(n: nat) -> usize {
    if n > usize::MAX {
        usize::MAX
    } else {
        n as usize
    }
}

/// Header fields: no name occurs twice, and a value put in replaces an earlier one.
#[derive(Debug, PartialEq, Eq)]
pub struct HeaderMap {
    entries: Vec<(String, String)>,
}

impl View for HeaderMap {
    type V = Seq<(Seq<char>, Seq<char>)>;

    closed spec fn view(&self) -> Seq<(Seq<char>, Seq<char>)> {
        entries_view(self.entries@)
    }
}

impl HeaderMap {
    pub fn new() -> (r: HeaderMap)
        ensures
            r@ == Seq::<(Seq<char>, Seq<char>)>::empty(),
    {
        let r = HeaderMap { entries: Vec::new() };
        assert(r@ =~= Seq::empty());
        r
    }

    /// The value under a name.
    pub fn get(&self, name: &str) -> (r: Option<&str>)
        ensures
            match r {
                Some(v) => assoc::lookup(self@, name@) == Some(v@),
                None => assoc::lookup(self@, name@) is None,
            },
    {
        proof {
            assert(assoc::names(self.entries@) =~= assoc::keys(self@));
        }
        match assoc::position(&self.entries, name) {
            Some(i) => Some(self.entries[i].1.as_str()),
            None => None,
        }
    }

    /// Puts a value under a name.
    pub fn insert(&mut self, name: String, value: String)
        ensures
            final(self)@ == assoc::set(old(self)@, name@, value@),
    {
        let ghost before = self@;
        proof {
            assert(assoc::names(self.entries@) =~= assoc::keys(before));
        }
        match assoc::position(&self.entries, name.as_str()) {
            Some(i) => {
                self.entries.set(i, (name, value));
                assert(self@ =~= before.update(i as int, (name@, value@)));
            },
            None => {
                self.entries.push((name, value));
                assert(self@ =~= before.push((name@, value@)));
            },
        }
    }

    /// Puts all fields of `other` in.
    pub fn extend(&mut self, other: HeaderMap)
        ensures
            final(self)@ == extended(old(self)@, other@),
    {
        let ghost before = self@;
        let mut i: usize = 0;
        while i < other.entries.len()
            invariant
                i <= other.entries@.len(),
                self@ == extended(before, other@.take(i as int)),
            decreases other.entries@.len() - i,
        {
            proof {
                assert(other@.take(i + 1).drop_last() =~= other@.take(i as int));
                assert(other@.take(i + 1).last() == (
                    other.entries@[i as int].0@,
                    other.entries@[i as int].1@,
                ));
            }
            self.insert(other.entries[i].0.clone(), other.entries[i].1.clone());
            i += 1;
        }
        assert(other@.take(i as int) =~= other@);
    }

    /// The number of fields.
    pub fn len(&self) -> (r: usize)
        ensures
            r == self@.len(),
    {
        self.entries.len()
    }

    /// The fields, in the order in which their names were first put in.
    pub fn entries(&self) -> (r: &Vec<(String, String)>)
        ensures
            entries_view(r@) == self@,
    {
        &self.entries
    }

    /// The bytes of all names and values and `extra` for each field, at most what a `usize` holds.
    pub fn size_with(&self, extra: usize) -> (r: usize)
        ensures
            r == bounded(total_bytes(self@, extra as nat)),
    {
        let mut total: usize = 0;
        let mut i: usize = 0;
        while i < self.entries.len()
            invariant
                i <= self.entries@.len(),
                total == bounded(total_bytes(self@.take(i as int), extra as nat)),
            decreases self.entries@.len() - i,
        {
            proof {
                assert(self@.take(i + 1).drop_last() =~= self@.take(i as int));
                assert(self@.take(i + 1).last() == (
                    self.entries@[i as int].0@,
                    self.entries@[i as int].1@,
                ));
            }
            let name: usize = text::byte_len(self.entries[i].0.as_str());
            let value: usize = text::byte_len(self.entries[i].1.as_str());
            total = total.saturating_add(name).saturating_add(value).saturating_add(extra);
            i += 1;
        }
        assert(self@.take(i as int) =~= self@);
        total
    }
}

impl Clone for HeaderMap {
    fn clone(&self) -> (r: HeaderMap)
        ensures
            r@ == self@,
    {
        let mut entries: Vec<(String, String)> = Vec::new();
        let mut i: usize = 0;
        while i < self.entries.len()
            invariant
                i <= self.entries@.len(),
                entries@.len() == i,
                entries_view(entries@) == self@.take(i as int),
            decreases self.entries@.len() - i,
        {
            entries.push((self.entries[i].0.clone(), self.entries[i].1.clone()));
            assert(entries_view(entries@) =~= self@.take(i + 1));
            i += 1;
        }
        let r = HeaderMap { entries };
        assert(r@ =~= self@);
        r
    }
}

proof fn lemma_extended_distinct(
    a: Seq<(Seq<char>, Seq<char>)>,
    b: Seq<(Seq<char>, Seq<char>)>,
)
    requires
        assoc::distinct(assoc::keys(a)),
    ensures
        assoc::distinct(assoc::keys(extended(a, b))),
    decreases b.len(),
{
    if b.len() > 0 {
        lemma_extended_distinct(a, b.drop_last());
        assoc::lemma_set(extended(a, b.drop_last()), b.last().0, b.last().1);
    }
}

/// No name ever occurs twice: neither putting one value in nor putting in many doubles a name.
pub proof fn law_names_stay_distinct(
    a: Seq<(Seq<char>, Seq<char>)>,
    b: Seq<(Seq<char>, Seq<char>)>,
    name: Seq<char>,
    value: Seq<char>,
)
    requires
        assoc::distinct(assoc::keys(a)),
    ensures
        assoc::distinct(assoc::keys(assoc::set(a, name, value))),
        assoc::distinct(assoc::keys(extended(a, b))),
{
    assoc::lemma_set(a, name, value);
    lemma_extended_distinct(a, b);
}

/// Of two sets of fields put in one after the other, the later value of a name counts; a name
/// that the later set does not have keeps its value.
pub proof fn law_later_fields_win(
    a: Seq<(Seq<char>, Seq<char>)>,
    b: Seq<(Seq<char>, Seq<char>)>,
    name: Seq<char>,
)
    requires
        assoc::distinct(assoc::keys(b)),
    ensures
        assoc::lookup(extended(a, b), name) == match assoc::lookup(b, name) {
            Some(v) => Some(v),
            None => assoc::lookup(a, name),
        },
    decreases b.len(),
{
    if b.len() == 0 {
        assoc::lemma_index_of(assoc::keys(b), name);
    } else {
        let c = b.drop_last();
        assert(assoc::keys(c) =~= assoc::keys(b).drop_last());
        assert(assoc::distinct(assoc::keys(c))) by {
            assert forall|i: int, j: int| 0 <= i < j < assoc::keys(c).len() implies assoc::keys(c)[i]
                != assoc::keys(c)[j] by {
                assert(assoc::keys(b)[i] != assoc::keys(b)[j]);
            }
        }
        law_later_fields_win(a, c, name);
        assoc::lemma_set(extended(a, c), b.last().0, b.last().1);
        assoc::lemma_index_of(assoc::keys(b), name);
        assoc::lemma_index_of(assoc::keys(c), name);
        let n = b.len() - 1;
        if b.last().0 == name {
            assert(assoc::keys(b)[n] == name);
            assert(assoc::index_of(assoc::keys(b), name) == Some(n)) by {
                assert forall|j: int| 0 <= j < n implies assoc::keys(b)[j] != name by {
                    assert(assoc::keys(b)[j] != assoc::keys(b)[n]);
                }
                assoc::lemma_index_is(assoc::keys(b), name, n);
            }
        } else {
            match assoc::index_of(assoc::keys(c), name) {
                Some(k) => {
                    assert(assoc::keys(b)[k] == name);
                    assert forall|j: int| 0 <= j < k implies assoc::keys(b)[j] != name by {
                        assert(assoc::keys(c)[j] != name);
                    }
                    assoc::lemma_index_is(assoc::keys(b), name, k);
                },
                None => {
                    assert forall|j: int| 0 <= j < b.len() implies assoc::keys(b)[j] != name by {
                        if j < n {
                            assert(assoc::keys(c)[j] != name);
                        }
                    }
                },
            }
        }
    }
}

} // verus!
