use arena::{Arena, Entry, Index};

fn collect(arena: &Arena<u32>) -> Vec<u32> {
    let mut out = Vec::new();
    let mut it = arena.iter();
    while let Some(v) = it.next() {
        out.push(*v);
    }
    out
}

#[test]
fn new_arena_is_empty() {
    let arena: Arena<u32> = Arena::new();
    assert!(arena.is_empty());
    assert_eq!(arena.len(), 0);
    assert!(collect(&arena).is_empty());
    let d: Arena<u32> = Arena::default();
    assert!(d.is_empty());
}

#[test]
fn first_handles_carry_generation_one() {
    let mut arena = Arena::new();
    let a = arena.push(10u32);
    let b = arena.insert(20u32);
    assert_eq!(a, Index::from_parts(0, 1));
    assert_eq!(b, Index::from_parts(1, 1));
}

#[test]
fn remove_advances_generation_by_one() {
    let mut arena = Arena::new();
    let a = arena.push(1u32);
    arena.remove(a);
    let b = arena.insert(2u32);
    assert_eq!(b.slot, 0);
    assert_eq!(b.generation, 2);
    let c = arena.push(3u32);
    assert_eq!(c, Index::from_parts(1, 2));
}

#[test]
fn end_to_end_scenario() {
    let mut arena = Arena::new();
    let h0 = arena.push("Foo");
    let h1 = arena.push("Bar");
    arena.remove(h0);
    let h2 = arena.insert("Baz");
    assert_eq!(h0.slot, h2.slot);
    assert_ne!(h0.generation, h2.generation);
    assert_eq!(arena.len(), 2);
    assert_eq!(arena.get(h0), None);
    assert_eq!(arena.get(h1), Some(&"Bar"));
    assert_eq!(arena.get(h2), Some(&"Baz"));
}

#[test]
fn replace_scenario() {
    let mut arena = Arena::new();
    let h0 = arena.insert("Foo");
    let (h1, prev) = arena.replace(h0, "Baz");
    assert_eq!(prev, Some("Foo"));
    assert_eq!(arena.get(h0), None);
    assert_eq!(arena.get(h1), Some(&"Baz"));
    assert_eq!(h0.slot, h1.slot);
    assert_ne!(h0.generation, h1.generation);
    assert_eq!(arena.len(), 1);
}

#[test]
fn stale_handle_stays_stale_after_reuse() {
    let mut arena = Arena::new();
    let h0 = arena.insert(5u32);
    arena.remove(h0);
    let h1 = arena.insert(5u32);
    arena.remove(h1);
    let h2 = arena.insert(5u32);
    assert_eq!(h0.slot, h2.slot);
    assert_eq!(arena.get(h0), None);
    assert_eq!(arena.get(h1), None);
    assert_eq!(arena.get(h2), Some(&5));
    assert!(h0.generation < h1.generation && h1.generation < h2.generation);
}

#[test]
fn remove_twice_same_as_once() {
    let mut arena = Arena::new();
    let a = arena.insert(1u32);
    let b = arena.insert(2u32);
    arena.remove(a);
    assert_eq!(arena.len(), 1);
    arena.remove(a);
    assert_eq!(arena.len(), 1);
    assert_eq!(arena.get(b), Some(&2));
    let c = arena.insert(3u32);
    let d = arena.insert(4u32);
    assert_eq!(c.slot, a.slot);
    assert_eq!(d.slot, 2);
}

#[test]
fn stale_remove_leaves_new_occupant() {
    let mut arena = Arena::new();
    let a = arena.insert(1u32);
    arena.remove(a);
    let b = arena.insert(2u32);
    arena.remove(a);
    assert_eq!(arena.len(), 1);
    assert_eq!(arena.get(b), Some(&2));
    assert_eq!(arena.take(a), None);
    assert_eq!(arena.get(b), Some(&2));
}

#[test]
fn take_once_only() {
    let mut arena = Arena::new();
    let a = arena.insert(7u32);
    assert_eq!(arena.take(a), Some(7));
    assert_eq!(arena.get(a), None);
    assert_eq!(arena.take(a), None);
    assert!(arena.is_empty());
}

#[test]
fn free_slots_reused_most_recent_first() {
    let mut arena = Arena::new();
    let a = arena.insert(0u32);
    let b = arena.insert(1u32);
    let c = arena.insert(2u32);
    arena.remove(a);
    arena.remove(c);
    let d = arena.insert(3u32);
    let e = arena.insert(4u32);
    let f = arena.insert(5u32);
    assert_eq!(d.slot, c.slot);
    assert_eq!(e.slot, a.slot);
    assert_eq!(f.slot, 3);
    assert_eq!(arena.get(b), Some(&1));
    assert_eq!(collect(&arena), vec![4, 1, 3, 5]);
}

#[test]
fn replace_into_vacant_slot_leaves_free_list() {
    let mut arena = Arena::new();
    let a = arena.insert(0u32);
    let b = arena.insert(1u32);
    let c = arena.insert(2u32);
    arena.remove(a);
    arena.remove(b);
    arena.remove(c);
    // The free list is c, b, a; fill b, which sits in the middle.
    let (nb, prev) = arena.replace(b, 10u32);
    assert_eq!(prev, None);
    assert_eq!(nb.slot, b.slot);
    assert_eq!(arena.len(), 1);
    let x = arena.insert(11u32);
    let y = arena.insert(12u32);
    let z = arena.insert(13u32);
    assert_eq!(x.slot, c.slot);
    assert_eq!(y.slot, a.slot);
    assert_eq!(z.slot, 3);
    assert_eq!(arena.get(nb), Some(&10));
    assert_eq!(arena.len(), 4);
    assert_eq!(collect(&arena), vec![12, 10, 11, 13]);
}

#[test]
fn replace_with_stale_handle_overwrites_slot() {
    let mut arena = Arena::new();
    let a = arena.insert(1u32);
    let (b, _) = arena.replace(a, 2u32);
    let (c, prev) = arena.replace(a, 3u32);
    assert_eq!(prev, Some(2));
    assert_eq!(arena.get(b), None);
    assert_eq!(arena.get(c), Some(&3));
    assert_eq!(c.generation, 3);
}

#[test]
fn set_overwrites_and_retires_handle() {
    let mut arena = Arena::new();
    let a = arena.insert(1u32);
    arena.set(a, 9u32);
    assert_eq!(arena.get(a), None);
    assert_eq!(arena.len(), 1);
    assert_eq!(collect(&arena), vec![9]);
    let b = arena.insert(2u32);
    arena.remove(b);
    arena.set(b, 4u32);
    assert_eq!(arena.len(), 2);
    assert_eq!(collect(&arena), vec![9, 4]);
    let c = arena.insert(5u32);
    assert_eq!(c.slot, 2);
}

#[test]
fn get_mut_writes_through() {
    let mut arena = Arena::new();
    let a = arena.insert(1u32);
    *arena.get_mut(a).unwrap() = 42;
    assert_eq!(arena.get(a), Some(&42));
    arena.remove(a);
    assert!(arena.get_mut(a).is_none());
    assert!(arena.get_mut(Index::from_parts(50, 1)).is_none());
}

#[test]
fn get2_mut_writes_both() {
    let mut arena = Arena::new();
    let a = arena.insert(1u32);
    let b = arena.insert(2u32);
    {
        let (x, y) = arena.get2_mut(b, a);
        *x.unwrap() += 10;
        *y.unwrap() += 20;
    }
    assert_eq!(arena.get(a), Some(&21));
    assert_eq!(arena.get(b), Some(&12));
    arena.remove(a);
    let (x, y) = arena.get2_mut(a, b);
    assert!(x.is_none());
    assert_eq!(y, Some(&mut 12));
    let (x, y) = arena.get2_mut(b, Index::from_parts(9, 1));
    assert_eq!(x, Some(&mut 12));
    assert!(y.is_none());
}

#[test]
fn iter_skips_vacant_slots() {
    let mut arena = Arena::new();
    let a = arena.insert(1u32);
    arena.insert(2u32);
    let c = arena.insert(3u32);
    arena.insert(4u32);
    arena.remove(a);
    arena.remove(c);
    assert_eq!(collect(&arena), vec![2, 4]);
    let mut it = arena.iter();
    assert_eq!(it.next(), Some(&2));
    assert_eq!(it.next(), Some(&4));
    assert_eq!(it.next(), None);
    assert_eq!(it.next(), None);
}

#[test]
fn entry_accessors() {
    let v: Entry<u32> = Entry::Vacant { next: None };
    let o: Entry<u32> = Entry::Occupied { generation: 3, item: 8 };
    assert!(v.is_vacant());
    assert!(!v.is_occupied());
    assert!(o.is_occupied());
    assert!(!o.is_vacant());
    assert_eq!(o.unwrap_occupied(), (3, 8));
}

#[test]
fn handles_order_by_generation_then_slot() {
    let a = Index::from_parts(5, 1);
    let b = Index::from_parts(0, 2);
    let c = Index::from_parts(6, 1);
    assert!(a < b);
    assert!(a < c);
    assert_eq!(a, Index::from_parts(5, 1));
}
