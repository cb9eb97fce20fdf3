use vstd::pervasive::unreached;
use vstd::prelude::*;

use crate::entry::{
    lemma_occupied_items_len, lemma_occupied_items_push, lemma_occupied_items_same_shape,
    lemma_occupied_items_update_len, occupied_items, Entry,
};
use crate::free_list::{lemma_unlink, link_after, links_follow, unlinked, vacant_listed};
use crate::index::Index;
use crate::iter::Iter;

verus! {

/// A generational arena of values of type `T`.
pub struct Arena<T> {
    data: Vec<Entry<T>>,
    generation: usize,
    free_head: Option<usize>,
    count: usize,
    /// The vacant slots in the order in which the free list links them.
    free_list: Ghost<Seq<usize>>,
}

/// The stamp that follows `g`: one more, held at the largest `usize`.
pub open spec fn next_generation(g: nat) -> nat {
    if g < usize::MAX {
        g + 1
    } else {
        g
    }
}

/// A mutable reference to the item of `e` where `e` is occupied with stamp
/// `g`.
fn item_mut<T>(e: &mut Entry<T>, g: usize) -> (r: Option<&mut T>)
    ensures
        r is Some == (*old(e) matches Entry::Occupied { generation, .. } && generation == g),
        r matches Some(v) ==> {
            &&& *old(e) == (Entry::Occupied { generation: g, item: *v })
            &&& *final(e) == (Entry::Occupied { generation: g, item: *final(v) })
        },
        r is None ==> *final(e) == *old(e),
{
    match e {
        Entry::Occupied { generation, item } => {
            if *generation == g {
                Some(item)
            } else {
                None
            }
        },
        Entry::Vacant { .. } => None,
    }
}

impl<T> Arena<T> {
    /// The slots, in position order.
    pub closed spec fn entries(&self) -> Seq<Entry<T>> {
        self.data@
    }

    /// The stamp that the next write into a vacant slot will carry.
    pub closed spec fn generation(&self) -> nat {
        self.generation as nat
    }

    /// The vacant slots, in the order in which insertion reuses them.
    pub closed spec fn free_slots(&self) -> Seq<usize> {
        self.free_list@
    }

    /// The stamp of slot `i`, or `None` where it is vacant or out of range.
    pub open spec fn stamp_at(&self, i: int) -> Option<nat> {
        if 0 <= i < self.entries().len() {
            match self.entries()[i] {
                Entry::Occupied { generation, .. } => Some(generation as nat),
                Entry::Vacant { .. } => None,
            }
        } else {
            None
        }
    }

    /// `h` reaches a value: its slot is occupied with exactly its stamp.
    pub open spec fn is_live(&self, h: Index) -> bool {
        self.stamp_at(h.slot as int) == Some(h.generation as nat)
    }

    /// What a lookup of `h` yields.
    pub open spec fn lookup(&self, h: Index) -> Option<T> {
        if self.is_live(h) {
            match self.entries()[h.slot as int] {
                Entry::Occupied { item, .. } => Some(item),
                Entry::Vacant { .. } => None,
            }
        } else {
            None
        }
    }

    /// The stored values, in slot order.
    pub open spec fn values(&self) -> Seq<T> {
        occupied_items(self.entries())
    }

    /// The number of occupied slots.
    pub open spec fn num_occupied(&self) -> nat {
        self.values().len()
    }

    /// The free list threads every vacant slot exactly once, in the order of
    /// `free_list`, and `free_head` starts it.
    closed spec fn free_list_wf(&self) -> bool {
        let fl = self.free_list@;
        &&& fl.no_duplicates()
        &&& links_follow(self.data@, fl)
        &&& vacant_listed(self.data@, fl)
        &&& self.free_head == if fl.len() == 0 {
            None
        } else {
            Some(fl[0])
        }
    }

    /// The first slot of the free list, which the next insertion reuses.
    pub open spec fn free_head_spec(&self) -> Option<usize> {
        if self.free_slots().len() == 0 {
            None
        } else {
            Some(self.free_slots()[0])
        }
    }

    /// Every stamp of `post` is either the one that `pre` had at that slot or
    /// at least `pre`'s generation, and the generation has not gone back.
    pub open spec fn advances_to(&self, post: &Self) -> bool {
        &&& post.generation() >= self.generation()
        &&& forall|i: int|
            #![trigger post.stamp_at(i)]
            post.stamp_at(i) is Some && post.stamp_at(i) != self.stamp_at(i) ==> post.stamp_at(
                i,
            ).unwrap() >= self.generation()
    }

    /// `h` is stale for good: its stamp is below the generation, and its slot is
    /// vacant or carries a later stamp.
    pub open spec fn retired(&self, h: Index) -> bool {
        &&& h.generation < self.generation()
        &&& match self.stamp_at(h.slot as int) {
            Some(g) => g > h.generation,
            None => true,
        }
    }

    /// What `remove(h)` does: a live handle's slot becomes the head of the
    /// free list and the generation advances; any other handle changes nothing.
    pub open spec fn remove_post(&self, h: Index, post: &Self) -> bool {
        if self.is_live(h) {
            &&& post.entries() == self.entries().update(
                h.slot as int,
                Entry::Vacant { next: self.free_head_spec() },
            )
            &&& post.generation() == next_generation(self.generation())
            &&& post.free_slots() == seq![h.slot] + self.free_slots()
        } else {
            post == self
        }
    }

    /// `post` has the slots of `self`, and every slot but `slot` holds what it
    /// held (a vacant one may link elsewhere).
    pub open spec fn keeps_other_slots(&self, post: &Self, slot: int) -> bool {
        &&& post.entries().len() == self.entries().len()
        &&& forall|i: int|
            0 <= i < self.entries().len() && i != slot ==> {
                &&& (#[trigger] self.entries()[i]) is Occupied ==> post.entries()[i]
                    == self.entries()[i]
                &&& self.entries()[i] is Vacant ==> post.entries()[i] is Vacant
            }
    }

    /// The stamp that overwriting slot `slot` writes: the next generation over
    /// an occupied slot, the current one into a vacant slot.
    pub open spec fn overwrite_stamp(&self, slot: int) -> nat {
        if self.stamp_at(slot) is Some {
            next_generation(self.generation())
        } else {
            self.generation()
        }
    }

    /// What overwriting slot `slot` with `item` does. The slot gets `item`
    /// under `overwrite_stamp(slot)`. Over an occupied slot the generation
    /// advances; a vacant slot leaves the free list, and the generation stays.
    pub open spec fn overwrite_post(&self, slot: int, item: T, post: &Self) -> bool {
        &&& self.keeps_other_slots(post, slot)
        &&& post.entries()[slot] == (Entry::Occupied {
            generation: self.overwrite_stamp(slot) as usize,
            item,
        })
        &&& if self.stamp_at(slot) is Some {
            &&& post.entries() == self.entries().update(slot, post.entries()[slot])
            &&& post.generation() == next_generation(self.generation())
            &&& post.free_slots() == self.free_slots()
        } else {
            &&& post.generation() == self.generation()
            &&& post.free_slots() == self.free_slots().remove(self.free_slots().index_of(slot as usize))
        }
    }

    /// The arena's invariant.
    pub closed spec fn wf(&self) -> bool {
        &&& self.free_list_wf()
        &&& self.generation >= 1
        &&& forall|i: int|
            0 <= i < self.data@.len() ==> match #[trigger] self.data@[i] {
                Entry::Occupied { generation, .. } => 1 <= generation <= self.generation,
                Entry::Vacant { .. } => true,
            }
        &&& self.count == occupied_items(self.data@).len()
    }

    /// In a well-formed arena every stamp lies between 1 and the generation.
    pub proof fn lemma_stamps_bounded(&self)
        requires
            self.wf(),
        ensures
            self.generation() >= 1,
            forall|i: int|
                #![trigger self.stamp_at(i)]
                self.stamp_at(i) is Some ==> 1 <= self.stamp_at(i).unwrap() <= self.generation(),
    {
        assert forall|i: int|
            #![trigger self.stamp_at(i)]
            self.stamp_at(i) is Some implies 1 <= self.stamp_at(i).unwrap() <= self.generation() by {
            assert(0 <= i < self.data@.len());
        }
    }

    /// `post` differs from `pre` at most in the items of occupied slots.
    closed spec fn items_changed_only(pre: &Self, post: &Self) -> bool {
        &&& post.generation == pre.generation
        &&& post.free_head == pre.free_head
        &&& post.count == pre.count
        &&& post.free_list == pre.free_list
        &&& post.data@.len() == pre.data@.len()
        &&& forall|i: int|
            0 <= i < pre.data@.len() ==> #[trigger] post.data@[i] == pre.data@[i] || (
            pre.data@[i] is Occupied && post.data@[i] is Occupied && pre.data@[i]->generation
                == post.data@[i]->generation)
    }

    /// Changing the items of occupied slots, and nothing else, keeps the
    /// invariant.
    proof fn lemma_items_changed(pre: &Self, post: &Self)
        requires
            pre.wf(),
            Self::items_changed_only(pre, post),
        ensures
            post.wf(),
            pre.advances_to(post),
    {
        assert forall|i: int| 0 <= i < pre.data@.len() implies (#[trigger] pre.data@[i] is Occupied) == (
        post.data@[i] is Occupied) by {
            assert(post.data@[i] == pre.data@[i] || post.data@[i] is Occupied);
        }
        lemma_occupied_items_same_shape(pre.data@, post.data@);
        let fl = pre.free_list@;
        assert forall|k: int| 0 <= k < fl.len() implies #[trigger] post.data@[fl[k] as int]
            == pre.data@[fl[k] as int] by {
            assert(pre.data@[fl[k] as int] is Vacant);
        }
        assert forall|i: int|
            0 <= i < post.data@.len() && (#[trigger] post.data@[i]) is Vacant implies exists|j: int|
            0 <= j < fl.len() && fl[j] as int == i by {
            assert(pre.data@[i] is Vacant);
        }
        assert forall|i: int| 0 <= i < post.data@.len() implies match #[trigger] post.data@[i] {
            Entry::Occupied { generation, .. } => 1 <= generation <= post.generation,
            Entry::Vacant { .. } => true,
        } by {
            assert(post.data@[i] == pre.data@[i] || pre.data@[i]->generation == post.data@[i]->generation);
        }
        assert forall|i: int|
            #![trigger post.stamp_at(i)]
            post.stamp_at(i) is Some && post.stamp_at(i) != pre.stamp_at(i) implies post.stamp_at(
            i).unwrap() >= pre.generation() by {
            assert(post.data@[i] == pre.data@[i] || pre.data@[i]->generation == post.data@[i]->generation);
        }
    }

    /// `lemma_items_changed`, for every later state at once.
    proof fn lemma_items_changed_any(pre: &Self)
        requires
            pre.wf(),
        ensures
            forall|post: Self|
                #![trigger post.wf()]
                Self::items_changed_only(pre, &post) ==> post.wf() && pre.advances_to(&post),
    {
        assert forall|post: Self|
            #![trigger post.wf()]
            Self::items_changed_only(pre, &post) implies post.wf() && pre.advances_to(&post) by {
            Self::lemma_items_changed(pre, &post);
        }
    }

    /// Creates an empty arena.
    pub fn new() -> (r: Self)
        ensures
            r.wf(),
            r.entries() == Seq::<Entry<T>>::empty(),
            r.generation() == 1,
            r.free_slots() == Seq::<usize>::empty(),
    {
        Arena { data: Vec::new(), generation: 1, free_head: None, count: 0, free_list: Ghost(Seq::empty()) }
    }

    /// Appends `item` in a new slot at the end, stamped with the current
    /// generation.
    pub fn push(&mut self, item: T) -> (h: Index)
        requires
            old(self).wf(),
            old(self).entries().len() < usize::MAX,
        ensures
            final(self).wf(),
            h.slot == old(self).entries().len(),
            h.generation == old(self).generation(),
            final(self).entries() == old(self).entries().push(
                Entry::Occupied { generation: h.generation, item },
            ),
            final(self).generation() == old(self).generation(),
            final(self).free_slots() == old(self).free_slots(),
            old(self).advances_to(&*final(self)),
    {
        let generation = self.generation;
        let pos = self.data.len();
        proof {
            lemma_occupied_items_len(self.data@);
            lemma_occupied_items_push(self.data@, Entry::Occupied { generation, item });
        }
        self.data.push(Entry::Occupied { generation, item });
        self.count = self.count + 1;
        proof {
            let fl = self.free_list@;
            assert forall|k: int| 0 <= k < fl.len() implies #[trigger] fl[k] < self.data@.len()
                && self.data@[fl[k] as int] == old(self).data@[fl[k] as int] by {
                assert(old(self).data@[fl[k] as int] is Vacant);
            }
            assert forall|i: int|
                0 <= i < self.data@.len() && (#[trigger] self.data@[i]) is Vacant implies exists|j: int|
                0 <= j < fl.len() && fl[j] as int == i by {
                assert(i < pos);
                assert(old(self).data@[i] == self.data@[i]);
            }
        }
        Index { generation, slot: pos }
    }

    /// The free slot whose link leads to `slot`, which stands at position `p`
    /// of the free list, past its head.
    fn free_predecessor(&self, slot: usize, Ghost(p): Ghost<int>) -> (cur: usize)
        requires
            self.wf(),
            0 < p < self.free_list@.len(),
            self.free_list@[p] == slot,
        ensures
            cur == self.free_list@[p - 1],
    {
        let ghost fl = self.free_list@;
        assert(fl.no_duplicates() && links_follow(self.data@, fl));
        let mut cur: usize = match self.free_head {
            Some(head) => head,
            None => unreached(),
        };
        let ghost mut k: int = 0;
        loop
            invariant
                fl == self.free_list@,
                fl.no_duplicates(),
                links_follow(self.data@, fl),
                0 <= k < p,
                p < fl.len(),
                fl[p] == slot,
                cur == fl[k],
            ensures
                k + 1 == p,
            decreases p - k,
        {
            proof {
                assert(self.data@[fl[k] as int] == (Entry::<T>::Vacant { next: link_after(fl, k) }));
            }
            let link = match &self.data[cur] {
                Entry::Vacant { next } => *next,
                Entry::Occupied { .. } => unreached(),
            };
            let n = match link {
                Some(n) => n,
                None => unreached(),
            };
            if n == slot {
                proof {
                    assert(fl[k + 1] == fl[p]);
                }
                break;
            }
            cur = n;
            proof {
                k = k + 1;
            }
        }
        cur
    }

    /// Writes `item` into vacant slot `slot` with the current stamp, taking the
    /// slot out of the free list.
    fn fill_vacant(&mut self, slot: usize, item: T) -> (h: Index)
        requires
            old(self).wf(),
            slot < old(self).entries().len(),
            old(self).entries()[slot as int] is Vacant,
        ensures
            final(self).wf(),
            h.slot == slot,
            h.generation == old(self).generation(),
            old(self).keeps_other_slots(&*final(self), slot as int),
            final(self).entries()[slot as int] == (Entry::Occupied { generation: h.generation, item }),
            old(self).free_head_spec() == Some(slot) ==> final(self).entries() == old(
                self,
            ).entries().update(slot as int, Entry::Occupied { generation: h.generation, item }),
            old(self).free_slots().contains(slot),
            final(self).free_slots() == old(self).free_slots().remove(
                old(self).free_slots().index_of(slot),
            ),
            final(self).generation() == old(self).generation(),
            old(self).advances_to(&*final(self)),
    {
        let ghost fl = self.free_list@;
        let ghost old_data = self.data@;
        proof {
            assert(fl.contains(slot));
        }
        let ghost p = fl.index_of(slot);
        proof {
            assert(fl[p] == slot);
            assert(old_data[slot as int] == (Entry::<T>::Vacant { next: link_after(fl, p) }));
        }
        let next = match &self.data[slot] {
            Entry::Vacant { next } => *next,
            Entry::Occupied { .. } => unreached(),
        };
        let at_head = match self.free_head {
            Some(head) => head == slot,
            None => false,
        };
        if at_head {
            proof {
                assert(p == 0);
            }
            self.free_head = next;
        } else {
            let cur = self.free_predecessor(slot, Ghost(p));
            proof {
                lemma_occupied_items_update_len(self.data@, cur as int, Entry::Vacant { next });
                assert(cur != slot);
            }
            self.data[cur] = Entry::Vacant { next };
        }
        let generation = self.generation;
        let ghost occ = Entry::Occupied { generation, item };
        proof {
            assert(self.data@ == if p > 0 {
                old_data.update(fl[p - 1] as int, Entry::Vacant { next: link_after(fl, p) })
            } else {
                old_data
            });
            assert(occupied_items(self.data@).len() == occupied_items(old_data).len());
            lemma_occupied_items_update_len(self.data@, slot as int, occ);
            lemma_occupied_items_len(self.data@.update(slot as int, occ));
            assert(self.data.len() == self.data@.len());
        }
        self.data[slot] = Entry::Occupied { generation, item };
        self.count = self.count + 1;
        self.free_list = Ghost(fl.remove(p));
        proof {
            reveal(unlinked);
            lemma_unlink(old_data, fl, p, occ);
            assert(self.data@ =~= unlinked(old_data, fl, p, occ));
            assert forall|i: int|
                #![trigger self.stamp_at(i)]
                self.stamp_at(i) is Some && self.stamp_at(i) != old(self).stamp_at(i) implies self.stamp_at(
                i).unwrap() >= old(self).generation() by {
                if i != slot {
                    assert(old_data[i] is Vacant || old_data[i] == self.data@[i]);
                }
            }
            if p > 0 {
                assert(fl[p - 1] != slot);
                assert(old_data[fl[p - 1] as int] is Vacant);
            }
        }
        Index { generation, slot }
    }

    /// Stores `item` in the slot at the head of the free list, or at the end
    /// where no slot is free, stamped with the current generation.
    pub fn insert(&mut self, item: T) -> (h: Index)
        requires
            old(self).wf(),
            old(self).free_slots().len() == 0 ==> old(self).entries().len() < usize::MAX,
        ensures
            final(self).wf(),
            h.generation == old(self).generation(),
            final(self).generation() == old(self).generation(),
            old(self).free_slots().len() == 0 ==> {
                &&& h.slot == old(self).entries().len()
                &&& final(self).entries() == old(self).entries().push(
                    Entry::Occupied { generation: h.generation, item },
                )
                &&& final(self).free_slots() == old(self).free_slots()
            },
            old(self).free_slots().len() > 0 ==> {
                &&& h.slot == old(self).free_slots()[0]
                &&& final(self).entries() == old(self).entries().update(
                    h.slot as int,
                    Entry::Occupied { generation: h.generation, item },
                )
                &&& final(self).free_slots() == old(self).free_slots().drop_first()
            },
            old(self).advances_to(&*final(self)),
    {
        match self.free_head {
            Some(pos) => {
                proof {
                    assert(self.free_list@[0] == pos);
                    assert(self.free_list@.index_of(pos) == 0);
                    assert(self.free_list@.remove(0) =~= self.free_list@.drop_first());
                }
                self.fill_vacant(pos, item)
            },
            None => self.push(item),
        }
    }

    /// Writes `item` into the slot of `h`, whatever that slot holds and whatever
    /// its stamp. Returns a handle to the new value and the value that the slot
    /// held, if any.
    pub fn replace(&mut self, h: Index, item: T) -> (r: (Index, Option<T>))
        requires
            old(self).wf(),
            h.slot < old(self).entries().len(),
        ensures
            final(self).wf(),
            old(self).overwrite_post(h.slot as int, item, &*final(self)),
            r.0.slot == h.slot,
            r.0.generation == old(self).overwrite_stamp(h.slot as int),
            r.1 == match old(self).entries()[h.slot as int] {
                Entry::Occupied { item, .. } => Some(item),
                Entry::Vacant { .. } => None,
            },
            old(self).advances_to(&*final(self)),
    {
        if self.data[h.slot].is_occupied() {
            let generation = self.generation.saturating_add(1);
            let ghost old_data = self.data@;
            let ghost occ = Entry::Occupied { generation, item };
            proof {
                lemma_occupied_items_update_len(old_data, h.slot as int, occ);
            }
            let mut e = Entry::Occupied { generation, item };
            core::mem::swap(&mut self.data[h.slot], &mut e);
            self.generation = generation;
            proof {
                let fl = self.free_list@;
                assert forall|k: int| 0 <= k < fl.len() implies #[trigger] fl[k] != h.slot by {
                    assert(old_data[fl[k] as int] is Vacant);
                }
                assert(links_follow(self.data@, fl));
                assert(vacant_listed(self.data@, fl));
                assert forall|i: int|
                    #![trigger self.stamp_at(i)]
                    self.stamp_at(i) is Some && self.stamp_at(i) != old(self).stamp_at(i) implies self.stamp_at(
                    i).unwrap() >= old(self).generation() by {
                    assert(i == h.slot);
                }
            }
            (Index { generation, slot: h.slot }, Some(e.unwrap_occupied().1))
        } else {
            let r = self.fill_vacant(h.slot, item);
            (r, None)
        }
    }

    /// Writes `item` into the slot of `h` as `replace` does, and drops both the
    /// new handle and the value that the slot held.
    pub fn set(&mut self, h: Index, item: T)
        requires
            old(self).wf(),
            h.slot < old(self).entries().len(),
        ensures
            final(self).wf(),
            old(self).overwrite_post(h.slot as int, item, &*final(self)),
            old(self).advances_to(&*final(self)),
    {
        let _ = self.replace(h, item);
    }

    /// A reference to the value that `h` names, or `None` where `h` is stale or
    /// out of range.
    pub fn get(&self, h: Index) -> (r: Option<&T>)
        requires
            self.wf(),
        ensures
            r is Some == self.is_live(h),
            r matches Some(v) ==> self.lookup(h) == Some(*v),
    {
        if h.slot < self.data.len() {
            match &self.data[h.slot] {
                Entry::Occupied { generation, item } => {
                    if *generation == h.generation {
                        return Some(item);
                    }
                },
                Entry::Vacant { .. } => {},
            }
        }
        None
    }

    /// A mutable reference to the value that `h` names, or `None` where `h` is
    /// stale or out of range. Only that value can change through it.
    pub fn get_mut(&mut self, h: Index) -> (r: Option<&mut T>)
        requires
            old(self).wf(),
        ensures
            final(self).wf(),
            r is Some == old(self).is_live(h),
            r matches Some(v) ==> {
                &&& old(self).lookup(h) == Some(*v)
                &&& final(self).entries() == old(self).entries().update(
                    h.slot as int,
                    Entry::Occupied { generation: h.generation, item: *final(v) },
                )
                &&& final(self).generation() == old(self).generation()
                &&& final(self).free_slots() == old(self).free_slots()
            },
            r is None ==> *final(self) == *old(self),
            old(self).advances_to(&*final(self)),
    {
        if h.slot >= self.data.len() {
            return None;
        }
        let live = match &self.data[h.slot] {
            Entry::Occupied { generation, .. } => *generation == h.generation,
            Entry::Vacant { .. } => false,
        };
        if !live {
            return None;
        }
        let ghost old_data = self.data@;
        match &mut self.data[h.slot] {
            Entry::Occupied { item, .. } => {
                proof {
                    let e = Entry::Occupied { generation: h.generation, item: *final(item) };
                    lemma_occupied_items_update_len(old_data, h.slot as int, e);
                    let fl = self.free_list@;
                    assert forall|k: int| 0 <= k < fl.len() implies #[trigger] fl[k] != h.slot by {
                        assert(old_data[fl[k] as int] is Vacant);
                    }
                }
                Some(item)
            },
            Entry::Vacant { .. } => unreached(),
        }
    }

    /// Mutable references to the values that `a` and `b` name, each `None`
    /// where its handle is stale or out of range. The two handles must name
    /// different slots, so that the references never alias.
    pub fn get2_mut(&mut self, a: Index, b: Index) -> (r: (Option<&mut T>, Option<&mut T>))
        requires
            old(self).wf(),
            a.slot != b.slot,
        ensures
            final(self).wf(),
            r.0 is Some == old(self).is_live(a),
            r.1 is Some == old(self).is_live(b),
            r.0 matches Some(v) ==> old(self).lookup(a) == Some(*v),
            r.1 matches Some(v) ==> old(self).lookup(b) == Some(*v),
            final(self).entries().len() == old(self).entries().len(),
            forall|i: int|
                0 <= i < old(self).entries().len() ==> #[trigger] final(self).entries()[i] == if i
                    == a.slot && r.0 is Some {
                    Entry::Occupied { generation: a.generation, item: *final(r.0.unwrap()) }
                } else if i == b.slot && r.1 is Some {
                    Entry::Occupied { generation: b.generation, item: *final(r.1.unwrap()) }
                } else {
                    old(self).entries()[i]
                },
            final(self).generation() == old(self).generation(),
            final(self).free_slots() == old(self).free_slots(),
            old(self).advances_to(&*final(self)),
    {
        let (lo, hi) = if a.slot < b.slot {
            (a, b)
        } else {
            (b, a)
        };
        if hi.slot >= self.data.len() {
            let r_lo = self.get_mut(lo);
            return if a.slot < b.slot {
                (r_lo, None)
            } else {
                (None, r_lo)
            };
        }
        proof {
            Self::lemma_items_changed_any(&*self);
        }
        let (left, right) = self.data.as_mut_slice().split_at_mut(hi.slot);
        let (_, mid) = left.split_at_mut(lo.slot);
        let e_lo = match mid.first_mut() {
            Some(e) => e,
            None => unreached(),
        };
        let e_hi = match right.first_mut() {
            Some(e) => e,
            None => unreached(),
        };
        let r_lo = item_mut(e_lo, lo.generation);
        let r_hi = item_mut(e_hi, hi.generation);
        if a.slot < b.slot {
            (r_lo, r_hi)
        } else {
            (r_hi, r_lo)
        }
    }

    /// Removes the value that `h` names. A stale handle changes nothing.
    pub fn remove(&mut self, h: Index)
        requires
            old(self).wf(),
            h.slot < old(self).entries().len(),
        ensures
            final(self).wf(),
            old(self).remove_post(h, &*final(self)),
            old(self).advances_to(&*final(self)),
    {
        let live = match &self.data[h.slot] {
            Entry::Occupied { generation, .. } => *generation == h.generation,
            Entry::Vacant { .. } => false,
        };
        if live {
            self.vacate(h.slot);
        }
    }

    /// Removes the value that `h` names and returns it; a stale handle changes
    /// nothing and yields `None`.
    pub fn take(&mut self, h: Index) -> (r: Option<T>)
        requires
            old(self).wf(),
            h.slot < old(self).entries().len(),
        ensures
            final(self).wf(),
            old(self).remove_post(h, &*final(self)),
            r == old(self).lookup(h),
            old(self).advances_to(&*final(self)),
    {
        let live = match &self.data[h.slot] {
            Entry::Occupied { generation, .. } => *generation == h.generation,
            Entry::Vacant { .. } => false,
        };
        if live {
            let e = self.vacate(h.slot);
            Some(e.unwrap_occupied().1)
        } else {
            None
        }
    }

    /// Turns occupied slot `slot` into the head of the free list and advances
    /// the generation.
    fn vacate(&mut self, slot: usize) -> (e: Entry<T>)
        requires
            old(self).wf(),
            slot < old(self).entries().len(),
            old(self).entries()[slot as int] is Occupied,
        ensures
            final(self).wf(),
            e == old(self).entries()[slot as int],
            final(self).entries() == old(self).entries().update(
                slot as int,
                Entry::Vacant { next: old(self).free_head_spec() },
            ),
            final(self).generation() == next_generation(old(self).generation()),
            final(self).free_slots() == seq![slot] + old(self).free_slots(),
            old(self).advances_to(&*final(self)),
    {
        let ghost old_data = self.data@;
        let ghost fl = self.free_list@;
        proof {
            lemma_occupied_items_update_len(old_data, slot as int, Entry::Vacant { next: self.free_head });
        }
        let mut e = Entry::Vacant { next: self.free_head };
        core::mem::swap(&mut self.data[slot], &mut e);
        self.free_head = Some(slot);
        self.generation = self.generation.saturating_add(1);
        self.count = self.count - 1;
        self.free_list = Ghost(seq![slot] + fl);
        proof {
            let nfl = self.free_list@;
            assert(!fl.contains(slot));
            assert forall|a: int, b: int| 0 <= a < b < nfl.len() implies nfl[a] != nfl[b] by {
                if a > 0 {
                    assert(nfl[a] == fl[a - 1]);
                }
                assert(nfl[b] == fl[b - 1]);
            }
            assert forall|k: int| 0 <= k < nfl.len() implies {
                &&& #[trigger] nfl[k] < self.data@.len()
                &&& self.data@[nfl[k] as int] == (Entry::<T>::Vacant {
                    next: if k + 1 < nfl.len() {
                        Some(nfl[k + 1])
                    } else {
                        None
                    },
                })
            } by {
                if k > 0 {
                    assert(nfl[k] == fl[k - 1]);
                    assert(fl[k - 1] != slot);
                    assert(old_data[fl[k - 1] as int] is Vacant);
                }
            }
            assert forall|i: int|
                0 <= i < self.data@.len() && (#[trigger] self.data@[i]) is Vacant implies exists|j: int|
                0 <= j < nfl.len() && nfl[j] as int == i by {
                if i == slot {
                    assert(nfl[0] == slot);
                } else {
                    assert(old_data[i] is Vacant);
                    let k = choose|k: int| 0 <= k < fl.len() && fl[k] as int == i;
                    assert(nfl[k + 1] as int == i);
                }
            }
            assert forall|i: int|
                #![trigger self.stamp_at(i)]
                self.stamp_at(i) is Some && self.stamp_at(i) != old(self).stamp_at(i) implies self.stamp_at(
                i).unwrap() >= old(self).generation() by {
                assert(i != slot);
            }
        }
        e
    }

    /// The number of stored values.
    pub fn len(&self) -> (r: usize)
        requires
            self.wf(),
        ensures
            r == self.num_occupied(),
    {
        self.count
    }

    /// Whether no value is stored.
    pub fn is_empty(&self) -> (r: bool)
        requires
            self.wf(),
        ensures
            r == (self.num_occupied() == 0),
    {
        self.count == 0
    }
    /// A walk over the stored values in slot order.
    pub fn iter(&self) -> (r: Iter<'_, T>)
        ensures
            r.remaining() == self.values(),
    {
        Iter::over(&self.data)
    }
}

impl<T> Default for Arena<T> {
    fn default() -> (r: Self)
        ensures
            r.wf(),
            r.entries() == Seq::<Entry<T>>::empty(),
            r.generation() == 1,
            r.free_slots() == Seq::<usize>::empty(),
    {
        Arena::new()
    }
}

} // verus!
