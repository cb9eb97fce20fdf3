use vstd::prelude::*;

use crate::entry::Entry;

verus! {

/// The link that the `k`-th slot of free list `fl` holds.
pub(crate) open spec fn link_after(fl: Seq<usize>, k: int) -> Option<usize> {
    if k + 1 < fl.len() {
        Some(fl[k + 1])
    } else {
        None
    }
}

/// Each slot of `fl` lies in `data`, is vacant, and links to the slot after it.
pub(crate) open spec fn links_follow<T>(data: Seq<Entry<T>>, fl: Seq<usize>) -> bool {
    &&& forall|k: int| 0 <= k < fl.len() ==> #[trigger] fl[k] < data.len()
    &&& forall|k: int|
        0 <= k < fl.len() ==> #[trigger] data[fl[k] as int] == (Entry::<T>::Vacant {
            next: link_after(fl, k),
        })
}

/// Every vacant slot of `data` is in `fl`.
pub(crate) open spec fn vacant_listed<T>(data: Seq<Entry<T>>, fl: Seq<usize>) -> bool {
    forall|i: int|
        0 <= i < data.len() && (#[trigger] data[i]) is Vacant ==> exists|j: int|
            0 <= j < fl.len() && fl[j] as int == i
}

/// Taking the `p`-th slot out of the free list: its predecessor, if any, takes
/// over its link, and the slot itself is written with `e`.
#[verifier::opaque]
pub(crate) open spec fn unlinked<T>(data: Seq<Entry<T>>, fl: Seq<usize>, p: int, e: Entry<T>) -> Seq<
    Entry<T>,
> {
    let relinked = if p > 0 {
        data.update(fl[p - 1] as int, Entry::Vacant { next: link_after(fl, p) })
    } else {
        data
    };
    relinked.update(fl[p] as int, e)
}

proof fn lemma_remove_no_duplicates(fl: Seq<usize>, p: int)
    requires
        fl.no_duplicates(),
        0 <= p < fl.len(),
    ensures
        fl.remove(p).no_duplicates(),
{
    let nfl = fl.remove(p);
    assert forall|a: int, b: int| 0 <= a < b < nfl.len() implies nfl[a] != nfl[b] by {
        let ia = if a < p { a } else { a + 1 };
        let ib = if b < p { b } else { b + 1 };
        assert(nfl[a] == fl[ia] && nfl[b] == fl[ib]);
    }
}

proof fn lemma_unlinked_at<T>(data: Seq<Entry<T>>, fl: Seq<usize>, p: int, e: Entry<T>, x: int)
    requires
        links_follow(data, fl),
        0 <= p < fl.len(),
        0 <= x < data.len(),
    ensures
        unlinked(data, fl, p, e).len() == data.len(),
        unlinked(data, fl, p, e)[x] == if x == fl[p] as int {
            e
        } else if p > 0 && x == fl[p - 1] as int {
            Entry::Vacant { next: link_after(fl, p) }
        } else {
            data[x]
        },
{
    reveal(unlinked);
    assert(fl[p] < data.len());
    if p > 0 {
        assert(fl[p - 1] < data.len());
    }
}

proof fn lemma_unlink_links<T>(data: Seq<Entry<T>>, fl: Seq<usize>, p: int, e: Entry<T>)
    requires
        fl.no_duplicates(),
        links_follow(data, fl),
        0 <= p < fl.len(),
    ensures
        links_follow(unlinked(data, fl, p, e), fl.remove(p)),
{
    let nfl = fl.remove(p);
    let nd = unlinked(data, fl, p, e);
    assert forall|k: int| 0 <= k < nfl.len() implies {
        &&& #[trigger] nfl[k] < nd.len()
        &&& nd[nfl[k] as int] == (Entry::<T>::Vacant { next: link_after(nfl, k) })
    } by {
        let j = if k < p { k } else { k + 1 };
        assert(nfl[k] == fl[j]);
        assert(fl[j] < data.len());
        lemma_unlinked_at(data, fl, p, e, fl[j] as int);
        assert(fl[j] != fl[p]);
        if p > 0 && j != p - 1 {
            assert(fl[j] != fl[p - 1]);
        }
        assert(data[fl[j] as int] == (Entry::<T>::Vacant { next: link_after(fl, j) }));
        if k + 1 < nfl.len() {
            let j1 = if k + 1 < p { k + 1 } else { k + 2 };
            assert(nfl[k + 1] == fl[j1]);
        }
    }
}

proof fn lemma_unlink_listed<T>(data: Seq<Entry<T>>, fl: Seq<usize>, p: int, e: Entry<T>)
    requires
        links_follow(data, fl),
        vacant_listed(data, fl),
        0 <= p < fl.len(),
        e is Occupied,
    ensures
        vacant_listed(unlinked(data, fl, p, e), fl.remove(p)),
{
    let nfl = fl.remove(p);
    let nd = unlinked(data, fl, p, e);
    assert(fl[p] < data.len());
    lemma_unlinked_at(data, fl, p, e, fl[p] as int);
    assert forall|i: int| 0 <= i < nd.len() && (#[trigger] nd[i]) is Vacant implies exists|j: int|
        0 <= j < nfl.len() && nfl[j] as int == i by {
        lemma_unlinked_at(data, fl, p, e, i);
        assert(i != fl[p] as int);
        if p > 0 && i == fl[p - 1] as int {
            assert(nfl[p - 1] as int == i);
        } else {
            assert(data[i] is Vacant);
            let j = choose|j: int| 0 <= j < fl.len() && fl[j] as int == i;
            assert(j != p);
            if j < p {
                assert(nfl[j] as int == i);
            } else {
                assert(nfl[j - 1] as int == i);
            }
        }
    }
}

pub(crate) proof fn lemma_unlink<T>(data: Seq<Entry<T>>, fl: Seq<usize>, p: int, e: Entry<T>)
    requires
        fl.no_duplicates(),
        links_follow(data, fl),
        vacant_listed(data, fl),
        0 <= p < fl.len(),
        e is Occupied,
    ensures
        fl.remove(p).no_duplicates(),
        unlinked(data, fl, p, e).len() == data.len(),
        links_follow(unlinked(data, fl, p, e), fl.remove(p)),
        vacant_listed(unlinked(data, fl, p, e), fl.remove(p)),
{
    lemma_remove_no_duplicates(fl, p);
    assert(fl[p] < data.len());
    lemma_unlinked_at(data, fl, p, e, fl[p] as int);
    lemma_unlink_links(data, fl, p, e);
    lemma_unlink_listed(data, fl, p, e);
}

} // verus!
