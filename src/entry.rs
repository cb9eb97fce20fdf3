use vstd::prelude::*;

verus! {

/// One slot of an arena.
#[derive(Debug, Clone)]
pub enum Entry<T> {
    /// A free slot; `next` links to the next free slot, if any.
    Vacant { next: Option<usize> },
    /// A used slot, stamped with the generation at which it was written.
    Occupied { generation: usize, item: T },
}

/// The items of the occupied entries of `s`, in slot order.
pub open spec fn occupied_items<T>(s: Seq<Entry<T>>) -> Seq<T>
    decreases s.len(),
{
    if s.len() == 0 {
        Seq::empty()
    } else {
        let rest = occupied_items(s.drop_first());
        match s[0] {
            Entry::Occupied { item, .. } => seq![item] + rest,
            Entry::Vacant { .. } => rest,
        }
    }
}

/// The items of an entry: one for an occupied entry, none for a vacant one.
pub open spec fn entry_items<T>(e: Entry<T>) -> Seq<T> {
    match e {
        Entry::Occupied { item, .. } => seq![item],
        Entry::Vacant { .. } => Seq::empty(),
    }
}

/// Appending an entry appends its items.
pub proof fn lemma_occupied_items_push<T>(s: Seq<Entry<T>>, e: Entry<T>)
    ensures
        occupied_items(s.push(e)) == occupied_items(s) + entry_items(e),
    decreases s.len(),
{
    if s.len() == 0 {
        assert(s.push(e).drop_first() =~= s);
        assert(occupied_items(s.push(e).drop_first()) == Seq::<T>::empty());
    } else {
        assert(s.push(e).drop_first() =~= s.drop_first().push(e));
        lemma_occupied_items_push(s.drop_first(), e);
    }
    reveal_with_fuel(occupied_items, 2);
    if s.len() == 0 {
        match e {
            Entry::Occupied { item, .. } => assert(seq![item] + Seq::<T>::empty() =~= seq![item]),
            Entry::Vacant { .. } => assert(Seq::<T>::empty() + Seq::<T>::empty() =~= Seq::<T>::empty()),
        }
    } else {
        match s[0] {
            Entry::Occupied { item, .. } => {
                assert(seq![item] + (occupied_items(s.drop_first()) + entry_items(e)) =~= (seq![item]
                    + occupied_items(s.drop_first())) + entry_items(e));
            },
            Entry::Vacant { .. } => {},
        }
    }
}

/// Overwriting one entry changes the number of items by what the new entry
/// holds less what the old one held.
pub proof fn lemma_occupied_items_update_len<T>(s: Seq<Entry<T>>, i: int, e: Entry<T>)
    requires
        0 <= i < s.len(),
    ensures
        occupied_items(s.update(i, e)).len() + entry_items(s[i]).len() == occupied_items(s).len()
            + entry_items(e).len(),
    decreases s.len(),
{
    if i > 0 {
        assert(s.update(i, e).drop_first() =~= s.drop_first().update(i - 1, e));
        lemma_occupied_items_update_len(s.drop_first(), i - 1, e);
    } else {
        assert(s.update(i, e).drop_first() =~= s.drop_first());
    }
}

/// There are no more items than entries.
pub proof fn lemma_occupied_items_len<T>(s: Seq<Entry<T>>)
    ensures
        occupied_items(s).len() <= s.len(),
    decreases s.len(),
{
    if s.len() > 0 {
        lemma_occupied_items_len(s.drop_first());
    }
}

/// Two sequences occupied at the same positions hold as many items.
pub proof fn lemma_occupied_items_same_shape<T>(s1: Seq<Entry<T>>, s2: Seq<Entry<T>>)
    requires
        s1.len() == s2.len(),
        forall|i: int| 0 <= i < s1.len() ==> (#[trigger] s1[i] is Occupied) == (s2[i] is Occupied),
    ensures
        occupied_items(s1).len() == occupied_items(s2).len(),
    decreases s1.len(),
{
    if s1.len() > 0 {
        assert(s1[0] is Occupied == s2[0] is Occupied);
        lemma_occupied_items_same_shape(s1.drop_first(), s2.drop_first());
    }
}

impl<T> Entry<T> {
    pub fn is_occupied(&self) -> (r: bool)
        ensures
            r == self is Occupied,
    {
        matches!(self, Entry::Occupied { .. })
    }

    pub fn is_vacant(&self) -> (r: bool)
        ensures
            r == self is Vacant,
    {
        matches!(self, Entry::Vacant { .. })
    }

    /// Splits an occupied entry into its stamp and its item.
    pub fn unwrap_occupied(self) -> (r: (usize, T))
        requires
            self is Occupied,
        ensures
            self == (Entry::Occupied { generation: r.0, item: r.1 }),
    {
        match self {
            Entry::Occupied { generation, item } => (generation, item),
            Entry::Vacant { .. } => unreached(),
        }
    }
}

} // verus!
