use vstd::prelude::*;

use crate::arena::{next_generation, Arena};
use crate::entry::Entry;
use crate::index::Index;

verus! {

/// A retired handle stays retired through any run of operations, each of
/// which advances the arena, and no lookup reaches a value through it.
pub proof fn lemma_retired_stays_retired<T>(run: Seq<Arena<T>>, h: Index)
    requires
        run.len() > 0,
        run[0].retired(h),
        forall|i: int| #![trigger run[i]] 0 <= i < run.len() - 1 ==> run[i].advances_to(&run[i + 1]),
    ensures
        forall|i: int|
            0 <= i < run.len() ==> {
                &&& #[trigger] run[i].retired(h)
                &&& !run[i].is_live(h)
                &&& run[i].lookup(h) is None
            },
    decreases run.len(),
{
    if run.len() > 1 {
        let prefix = run.drop_last();
        assert forall|i: int| #![trigger prefix[i]] 0 <= i < prefix.len() - 1 implies prefix[i].advances_to(
            &prefix[i + 1],
        ) by {
            assert(run[i].advances_to(&run[i + 1]));
        }
        lemma_retired_stays_retired(prefix, h);
        let n = run.len() - 1;
        assert(prefix[n - 1].retired(h));
        assert(run[n - 1].advances_to(&run[n]));
        let s = h.slot as int;
        assert(run[n].stamp_at(s) == run[n].stamp_at(s));
        assert forall|i: int| 0 <= i < run.len() implies #[trigger] run[i].retired(h) by {
            if i < n {
                assert(prefix[i].retired(h));
            }
        }
    }
}

/// Removing a live handle retires it, while the generation has room to
/// advance.
pub proof fn lemma_remove_retires<T>(pre: Arena<T>, h: Index, post: Arena<T>)
    requires
        pre.wf(),
        pre.is_live(h),
        pre.generation() < usize::MAX,
        pre.remove_post(h, &post),
    ensures
        post.retired(h),
{
    pre.lemma_stamps_bounded();
    assert(pre.stamp_at(h.slot as int) == Some(h.generation as nat));
}

/// Overwriting an occupied slot retires the handle that reached it, while the
/// generation has room to advance.
pub proof fn lemma_overwrite_retires<T>(pre: Arena<T>, h: Index, item: T, post: Arena<T>)
    requires
        pre.wf(),
        pre.is_live(h),
        pre.generation() < usize::MAX,
        pre.overwrite_post(h.slot as int, item, &post),
    ensures
        post.retired(h),
{
    pre.lemma_stamps_bounded();
    assert(pre.stamp_at(h.slot as int) == Some(h.generation as nat));
    assert(post.entries()[h.slot as int] == (Entry::Occupied {
        generation: next_generation(pre.generation()) as usize,
        item,
    }));
}

/// Once a live handle is removed, a handle that reaches its slot after any
/// later run of operations carries another stamp.
pub proof fn lemma_reused_slot_new_stamp<T>(run: Seq<Arena<T>>, h0: Index, h1: Index)
    requires
        run.len() > 1,
        run[0].wf(),
        run[0].is_live(h0),
        run[0].generation() < usize::MAX,
        run[0].remove_post(h0, &run[1]),
        forall|i: int| #![trigger run[i]] 1 <= i < run.len() - 1 ==> run[i].advances_to(&run[i + 1]),
        run.last().is_live(h1),
        h1.slot == h0.slot,
    ensures
        h1.generation > h0.generation,
{
    lemma_remove_retires(run[0], h0, run[1]);
    let rest = run.drop_first();
    assert forall|i: int| #![trigger rest[i]] 0 <= i < rest.len() - 1 implies rest[i].advances_to(
        &rest[i + 1],
    ) by {
        assert(run[i + 1].advances_to(&run[i + 2]));
    }
    lemma_retired_stays_retired(rest, h0);
    assert(rest[rest.len() - 1].retired(h0));
    assert(run.last().stamp_at(h1.slot as int) == Some(h1.generation as nat));
}

/// Removing a handle a second time changes nothing.
pub proof fn lemma_remove_idempotent<T>(a0: Arena<T>, h: Index, a1: Arena<T>, a2: Arena<T>)
    requires
        a0.wf(),
        a0.remove_post(h, &a1),
        a1.remove_post(h, &a2),
    ensures
        a2 == a1,
        a2.num_occupied() == a1.num_occupied(),
{
    if a0.is_live(h) {
        assert(a1.entries()[h.slot as int] is Vacant);
        assert(!a1.is_live(h));
    }
}

/// `take` yields the value of a live handle once; a second `take`, and any
/// lookup in between, yield nothing.
pub proof fn lemma_take_once<T>(
    a0: Arena<T>,
    h: Index,
    a1: Arena<T>,
    r1: Option<T>,
    a2: Arena<T>,
    r2: Option<T>,
)
    requires
        a0.wf(),
        a0.remove_post(h, &a1),
        r1 == a0.lookup(h),
        a1.remove_post(h, &a2),
        r2 == a1.lookup(h),
    ensures
        a0.is_live(h) ==> r1 is Some,
        a1.lookup(h) is None,
        r2 is None,
        a2 == a1,
{
    if a0.is_live(h) {
        assert(a1.entries()[h.slot as int] is Vacant);
    }
    lemma_remove_idempotent(a0, h, a1, a2);
}

} // verus!
