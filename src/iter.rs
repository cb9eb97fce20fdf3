use vstd::prelude::*;

use crate::entry::{occupied_items, Entry};

verus! {

/// A walk over the values of an arena, in slot order.
pub struct Iter<'a, T> {
    entries: &'a Vec<Entry<T>>,
    pos: usize,
}

proof fn lemma_items_from<T>(s: Seq<Entry<T>>, pos: int)
    requires
        0 <= pos < s.len(),
    ensures
        occupied_items(s.subrange(pos, s.len() as int)) == match s[pos] {
            Entry::Occupied { item, .. } => seq![item] + occupied_items(
                s.subrange(pos + 1, s.len() as int),
            ),
            Entry::Vacant { .. } => occupied_items(s.subrange(pos + 1, s.len() as int)),
        },
{
    assert(s.subrange(pos, s.len() as int).drop_first() =~= s.subrange(pos + 1, s.len() as int));
}

impl<'a, T> Iter<'a, T> {
    /// Starts a walk over `entries` at the first slot.
    pub(crate) fn over(entries: &'a Vec<Entry<T>>) -> (r: Self)
        ensures
            r.remaining() == occupied_items(entries@),
    {
        let r = Iter { entries, pos: 0 };
        proof {
            assert(entries@.subrange(0, entries@.len() as int) =~= entries@);
        }
        r
    }

    /// The values that the walk has yet to yield, in order.
    pub closed spec fn remaining(&self) -> Seq<T> {
        if self.pos <= self.entries@.len() {
            occupied_items(self.entries@.subrange(self.pos as int, self.entries@.len() as int))
        } else {
            Seq::empty()
        }
    }

    /// Yields the next value, or `None` once every value has been yielded.
    pub fn next(&mut self) -> (r: Option<&'a T>)
        ensures
            old(self).remaining().len() == 0 ==> r is None && final(self).remaining().len() == 0,
            old(self).remaining().len() > 0 ==> {
                &&& r matches Some(v) && *v == old(self).remaining()[0]
                &&& final(self).remaining() == old(self).remaining().drop_first()
            },
    {
        let entries = self.entries;
        if self.pos > entries.len() {
            return None;
        }
        while self.pos < entries.len()
            invariant
                entries == self.entries,
                self.pos <= entries@.len(),
                self.remaining() == old(self).remaining(),
            decreases entries@.len() - self.pos,
        {
            let i = self.pos;
            proof {
                lemma_items_from(entries@, i as int);
            }
            self.pos = i + 1;
            match &entries[i] {
                Entry::Occupied { item, .. } => {
                    return Some(item);
                },
                Entry::Vacant { .. } => {},
            }
        }
        proof {
            assert(entries@.subrange(self.pos as int, entries@.len() as int) =~= Seq::<Entry<T>>::empty());
        }
        None
    }
}

} // verus!
