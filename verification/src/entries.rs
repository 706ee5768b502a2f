//! The ordered, field-keyed body of a struct value. Keys may repeat on the
//! wire; a lookup returns the first match.

use vstd::prelude::*;

use crate::wire::{view_entry_seq, view_value, ValueV};
use crate::Value;

verus! {

/// One field of a struct body: a 16-bit key and its value.
#[derive(Debug, PartialEq)]
pub struct Entry {
    pub key: u16,
    pub value: Value,
}

/// An ordered sequence of keyed entries, in wire encounter order.
#[derive(Debug, PartialEq)]
pub struct Entries(pub Vec<Entry>);

impl View for Entries {
    type V = Seq<(u16, ValueV)>;

    open spec fn view(&self) -> Seq<(u16, ValueV)> {
        view_entry_seq(self.0@)
    }
}

/// The first value under a key, if any: the spec of [`Entries::get`].
pub open spec fn spec_lookup(es: Seq<(u16, ValueV)>, k: u16) -> Option<ValueV>
    decreases es.len(),
{
    if es.len() == 0 {
        None
    } else if es[0].0 == k {
        Some(es[0].1)
    } else {
        spec_lookup(es.drop_first(), k)
    }
}

impl Entries {
    /// An empty struct body.
    pub fn new() -> (r: Self)
        ensures
            r@ == Seq::<(u16, ValueV)>::empty(),
            r.0@.len() == 0,
    {
        Entries(Vec::new())
    }

    /// An empty struct body with room reserved for `capacity` entries.
    pub fn with_capacity(capacity: usize) -> (r: Self)
        ensures
            r@ == Seq::<(u16, ValueV)>::empty(),
            r.0@.len() == 0,
    {
        Entries(Vec::with_capacity(capacity))
    }

    /// The first value stored under key `k`, if any.
    pub fn get(&self, k: u16) -> (r: Option<&Value>)
        ensures
            match r {
                Some(v) => spec_lookup(self@, k) == Some(v@),
                None => spec_lookup(self@, k) is None,
            },
    {
        let ghost es = view_entry_seq(self.0@);
        let n = self.0.len();
        let mut i: usize = 0;
        proof {
            lemma_view_entry_seq_len(self.0@);
            assert(es.skip(0) =~= es);
        }
        while i < n
            invariant
                i <= n,
                n == self.0@.len(),
                es == view_entry_seq(self.0@),
                es.len() == n,
                forall|m: int|
                    0 <= m < n ==> #[trigger] es[m] == (self.0@[m].key, view_value(
                        self.0@[m].value,
                    )),
                spec_lookup(es, k) == spec_lookup(es.skip(i as int), k),
            decreases n - i,
        {
            proof {
                assert(es.skip(i as int)[0] == es[i as int]);
            }
            if self.0[i].key == k {
                return Some(&self.0[i].value);
            }
            proof {
                assert(es.skip(i as int).drop_first() =~= es.skip(i as int + 1));
            }
            i = i + 1;
        }
        None
    }

    /// Appends an entry under key `key`; an existing entry under the same key
    /// is kept and stays first for lookups.
    pub fn insert(&mut self, key: u16, value: Value)
        ensures
            final(self)@ == old(self)@.push((key, value@)),
            final(self).0@ == old(self).0@.push(Entry { key, value }),
    {
        let ghost old_entries = self.0@;
        self.0.push(Entry { key, value });
        proof {
            lemma_view_entry_seq_push(old_entries, Entry { key, value });
        }
    }

    /// Whether the body has no entries.
    pub fn is_empty(&self) -> (r: bool)
        ensures
            r == (self@.len() == 0),
    {
        proof {
            lemma_view_entry_seq_len(self.0@);
        }
        self.0.is_empty()
    }

    /// The number of entries.
    pub fn len(&self) -> (r: usize)
        ensures
            r == self@.len(),
    {
        proof {
            lemma_view_entry_seq_len(self.0@);
        }
        self.0.len()
    }

    /// The entry at an index, by reference.
    pub fn get_index(&self, idx: usize) -> (r: Option<&Entry>)
        ensures
            match r {
                Some(e) => idx < self.0@.len() && *e == self.0@[idx as int],
                None => idx >= self.0@.len(),
            },
    {
        if idx < self.0.len() {
            Some(&self.0[idx])
        } else {
            None
        }
    }
}

/// The view of entries has one pair per entry.
pub proof fn lemma_view_entry_seq_len(s: Seq<Entry>)
    ensures
        view_entry_seq(s).len() == s.len(),
        forall|i: int|
            0 <= i < s.len() ==> #[trigger] view_entry_seq(s)[i] == (s[i].key, view_value(
                s[i].value,
            )),
    decreases s.len(),
{
    if s.len() > 0 {
        lemma_view_entry_seq_len(s.drop_first());
    }
}

/// Pushing an entry appends its view.
pub proof fn lemma_view_entry_seq_push(s: Seq<Entry>, e: Entry)
    ensures
        view_entry_seq(s.push(e)) == view_entry_seq(s).push((e.key, view_value(e.value))),
{
    lemma_view_entry_seq_len(s);
    lemma_view_entry_seq_len(s.push(e));
    assert(view_entry_seq(s.push(e)) =~= view_entry_seq(s).push((e.key, view_value(e.value))));
}

/// The view of a suffix is the suffix of the view.
pub proof fn lemma_view_entry_seq_skip(s: Seq<Entry>, i: int)
    requires
        0 <= i <= s.len(),
    ensures
        view_entry_seq(s.skip(i)) == view_entry_seq(s).skip(i),
{
    lemma_view_entry_seq_len(s);
    lemma_view_entry_seq_len(s.skip(i));
    assert(view_entry_seq(s.skip(i)) =~= view_entry_seq(s).skip(i));
}

} // verus!
