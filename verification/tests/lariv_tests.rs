use lariv::{AtomicOptionTag, Epoch, Lariv, LarivEpoch, LarivIndex, NoEpoch, OncePtr};

fn pos<E: Epoch>(li: &LarivIndex<E>) -> (u64, u64) {
    (li.node, li.index)
}

#[test]
fn general() {
    let mut lariv = Lariv::new(10);
    for i in 1..=100usize {
        let li = LarivIndex::new(i / 10, i - 1);
        lariv.push(i);
        let _ = lariv.get(li).map(|g| *g.value());
        lariv.remove(li);
    }
}

#[test]
fn correctness() {
    let mut lariv = Lariv::new(10);
    let mut r = Vec::<(LarivIndex, String)>::with_capacity(100);
    for i in 1..=100 {
        r.push((lariv.push(i.to_string()), i.to_string()));
    }
    for (i, e) in r.iter() {
        assert_eq!(*e, *lariv.get(*i).unwrap().value());
        lariv.remove(*i)
    }
}

#[test]
fn push_fills_first_node_in_order() {
    let mut lariv = Lariv::new(4);
    let got: Vec<(u64, u64)> = (0..4).map(|i| pos(&lariv.push(i))).collect();
    assert_eq!(got, vec![(0, 0), (0, 1), (0, 2), (0, 3)]);
    assert_eq!(lariv.node_num(), 1);
    assert_eq!(lariv.node_capacity(), 4);
    assert_eq!(lariv.capacity(), 4);
}

#[test]
fn push_on_full_lariv_adds_a_node() {
    let mut lariv = Lariv::new(4);
    for i in 0..4 {
        lariv.push(i);
    }
    let li = lariv.push(4);
    assert_eq!(pos(&li), (1, 0));
    assert_eq!(lariv.node_num(), 2);
    assert_eq!(lariv.capacity(), 8);
    assert_eq!(*lariv.get(li).unwrap().value(), 4);
}

#[test]
fn cursor_wraps_after_enough_removals() {
    let mut lariv = Lariv::new(4);
    for i in 0..8 {
        lariv.push(i);
    }
    assert_eq!(lariv.node_num(), 2);
    // The threshold is 2 (30% of 8) after the second node was added.
    lariv.remove(LarivIndex::new(0, 2));
    lariv.remove(LarivIndex::new(0, 0));
    let a = lariv.push(100);
    assert_eq!(pos(&a), (0, 0));
    let b = lariv.push(101);
    assert_eq!(pos(&b), (0, 2));
    let c = lariv.push(102);
    assert_eq!(pos(&c), (2, 0));
    assert_eq!(lariv.node_num(), 3);
    assert_eq!(*lariv.get(a).unwrap().value(), 100);
    assert_eq!(*lariv.get(b).unwrap().value(), 101);
    assert_eq!(*lariv.get(c).unwrap().value(), 102);
}

#[test]
fn cursor_does_not_wrap_before_threshold_runs_down() {
    let mut lariv = Lariv::new(4);
    for i in 0..5 {
        lariv.push(i);
    }
    // Threshold is 2 now; one removal leaves it at 1.
    lariv.remove(LarivIndex::new(0, 0));
    for i in 5..8 {
        let li = lariv.push(i);
        assert_eq!(li.node, 1);
    }
    let li = lariv.push(8);
    assert_eq!(pos(&li), (2, 0));
    assert!(lariv.get(LarivIndex::new(0, 0)).is_none());
}

#[test]
fn get_out_of_bounds_is_none() {
    let mut lariv = Lariv::new(5);
    lariv.push(1);
    assert!(lariv.get(LarivIndex::new(0, 5)).is_none());
    assert!(lariv.get(LarivIndex::new(1, 0)).is_none());
    assert!(lariv.get(LarivIndex::new(0, 1)).is_none());
    assert_eq!(*lariv.get(LarivIndex::new(0, 0)).unwrap().value(), 1);
}

#[test]
fn get_mut_changes_element() {
    let mut lariv = Lariv::new(5);
    let li = lariv.push(String::from("a"));
    lariv.get_mut(li).unwrap().push('b');
    assert_eq!(lariv.get(li).unwrap().value().as_str(), "ab");
    assert!(lariv.get_mut(LarivIndex::new(0, 3)).is_none());
}

#[test]
fn take_returns_element_once() {
    let mut lariv = Lariv::new(5);
    let li = lariv.push(7u32);
    assert_eq!(lariv.take(li), Some(7));
    assert_eq!(lariv.take(li), None);
    assert!(lariv.get(li).is_none());
    assert_eq!(lariv.take(LarivIndex::new(9, 9)), None);
}

#[test]
fn remove_leaves_others() {
    let mut lariv = Lariv::new(5);
    let a = lariv.push(1);
    let b = lariv.push(2);
    lariv.remove(a);
    assert!(lariv.get(a).is_none());
    assert_eq!(*lariv.get(b).unwrap().value(), 2);
    lariv.remove(LarivIndex::new(3, 3));
    assert_eq!(*lariv.get(b).unwrap().value(), 2);
}

#[test]
fn epochs_reject_replaced_elements() {
    let mut lariv = Lariv::new_with_epoch(4);
    let li = lariv.push(10u8);
    assert_eq!(li.epoch.0, 1);
    assert_eq!(*lariv.get_with_epoch(li).unwrap().value(), 10);
    assert_eq!(lariv.get_with_epoch(li).unwrap().guard().0, 1);
    let wrong = LarivIndex::new_with_epoch(0, 0, 5);
    assert!(lariv.get_with_epoch(wrong).is_none());
    assert!(lariv.get_mut_with_epoch(wrong).is_none());
    lariv.remove_with_epoch(wrong);
    assert_eq!(*lariv.get_with_epoch(li).unwrap().value(), 10);
    assert_eq!(lariv.take_with_epoch(wrong), None);
    *lariv.get_mut_with_epoch(li).unwrap() = 11;
    assert_eq!(lariv.take_with_epoch(li), Some(11));
    assert!(lariv.get_with_epoch(li).is_none());
    assert_eq!(lariv.take_with_epoch(li), None);
}

#[test]
fn epoch_of_new_node_first_slot() {
    let mut lariv = Lariv::new_with_epoch(4);
    for i in 0..4u8 {
        lariv.push(i);
    }
    let li = lariv.push(4u8);
    assert_eq!(pos(&li), (1, 0));
    assert_eq!(li.epoch.0, 0);
    lariv.remove_with_epoch(li);
    assert!(lariv.get_with_epoch(li).is_none());
}

#[test]
fn refilled_slot_rejects_old_index() {
    let mut lariv = Lariv::new_with_epoch(4);
    let mut idx = Vec::new();
    for i in 0..8u8 {
        idx.push(lariv.push(i));
    }
    let old = idx[0];
    lariv.remove(old);
    lariv.remove(idx[1]);
    let new = lariv.push(50u8);
    assert_eq!(pos(&new), (0, 0));
    assert_eq!(new.epoch.0, 2);
    assert!(lariv.get_with_epoch(old).is_none());
    assert_eq!(*lariv.get_with_epoch(new).unwrap().value(), 50);
    assert_eq!(*lariv.get(old).unwrap().value(), 50);
}

#[test]
fn index_to_u128_and_back() {
    let li = LarivIndex::new(3, 5);
    let x: u128 = li.into();
    assert_eq!(x, 3 + (5u128 << 64));
    let back = LarivIndex::from(x);
    assert_eq!((back.node, back.index), (3, 5));
    let y = LarivIndex::from(u128::MAX);
    assert_eq!((y.node, y.index), (u64::MAX, u64::MAX));
    assert_eq!(u128::from(y), u128::MAX);
}

#[test]
fn index_constructors() {
    let a = LarivIndex::new(1, 2);
    assert_eq!((a.node, a.index), (1, 2));
    let b = LarivIndex::new_with_epoch(4, 6, 9);
    assert_eq!((b.node, b.index, b.epoch.0), (4, 6, 9));
}

#[test]
fn iter_walks_in_slot_order() {
    let mut lariv = Lariv::new(4);
    for i in 0..7 {
        lariv.push(i);
    }
    lariv.remove(LarivIndex::new(0, 1));
    lariv.remove(LarivIndex::new(1, 2));
    let mut it = lariv.iter();
    let mut seen = Vec::new();
    while let Some(g) = it.next() {
        seen.push(*g.value());
    }
    assert_eq!(seen, vec![0, 2, 3, 4, 5]);
    assert!(it.next().is_none());
}

#[test]
fn into_iter_takes_all() {
    let mut lariv = Lariv::new(4);
    for i in 0..6 {
        lariv.push(i * 10);
    }
    let mut it = lariv.into_iter();
    let mut seen = Vec::new();
    while let Some(v) = it.next() {
        seen.push(v);
    }
    assert_eq!(seen, vec![0, 10, 20, 30, 40, 50]);
}

#[test]
fn empty_lariv_iterates_nothing() {
    let lariv: Lariv<u8> = Lariv::new(4);
    assert!(lariv.iter().next().is_none());
}

#[test]
fn tag_claim_write_release() {
    let mut tag: AtomicOptionTag<LarivEpoch> = AtomicOptionTag::none();
    let mut slot: Option<u8> = None;
    assert!(tag.get(&slot).is_none());
    let mut g = tag.try_set().unwrap();
    g.write(&mut slot, 3);
    assert_eq!(g.epoch().0, 1);
    g.release();
    assert!(tag.is_set());
    assert!(tag.try_set().is_none());
    assert_eq!(*tag.get(&slot).unwrap().value(), 3);
    assert_eq!(*tag.get_with_epoch(&slot, 1).unwrap().value(), 3);
    assert!(tag.get_with_epoch(&slot, 0).is_none());
    *tag.get_mut(&mut slot).unwrap() = 4;
    assert_eq!(slot, Some(4));
    assert!(tag.get_mut_with_epoch(&mut slot, 2).is_none());
    assert_eq!(tag.take(&mut slot), Some(4));
    assert!(!tag.is_set());
    assert_eq!(slot, None);
}

#[test]
fn tag_release_without_write_keeps_slot_empty() {
    let mut tag: AtomicOptionTag<NoEpoch> = AtomicOptionTag::default();
    let g = tag.try_set().unwrap();
    g.release();
    assert!(!tag.is_set());
}

#[test]
fn tag_epoch_operations() {
    let mut tag: AtomicOptionTag<LarivEpoch> = AtomicOptionTag::some();
    let mut slot = Some(String::from("x"));
    assert!(tag.epoch_is(0));
    tag.empty_with_epoch(&mut slot, 1);
    assert_eq!(slot.as_deref(), Some("x"));
    assert_eq!(tag.take_with_epoch(&mut slot, 1), None);
    assert_eq!(tag.take_with_epoch(&mut slot, 0), Some(String::from("x")));
    assert!(tag.epoch_is(1));
    assert!(!tag.is_set());
    slot = Some(String::from("y"));
    let mut tag2: AtomicOptionTag<LarivEpoch> = AtomicOptionTag::some();
    tag2.empty_with_epoch(&mut slot, 0);
    assert_eq!(slot, None);
    assert!(tag2.epoch_is(0));
    let mut slot3 = Some(1u8);
    let mut tag3: AtomicOptionTag<NoEpoch> = AtomicOptionTag::some();
    tag3.empty(&mut slot3);
    assert_eq!(slot3, None);
    assert!(!tag3.is_set());
}

#[test]
fn epoch_counts_and_wraps() {
    let mut e = LarivEpoch::new(u64::MAX - 1);
    assert!(e.check(u64::MAX - 1));
    e.update();
    assert_eq!(e.0, u64::MAX);
    e.update();
    assert_eq!(e.0, 0);
    let mut n = NoEpoch::new(7);
    assert!(n.check(123));
    n.update();
    assert!(n.check(0));
}

#[test]
fn once_ptr_set_once() {
    let mut p: OncePtr<u32> = OncePtr::new();
    assert!(p.get().is_none());
    p.set_unchecked(5);
    assert_eq!(p.get(), Some(&5));
}

#[test]
fn iter_mut_changes_every_element_in_order() {
    let mut lariv = Lariv::new(4);
    for i in 0..6 {
        lariv.push(i);
    }
    lariv.remove(LarivIndex::new(0, 1));
    let mut it = lariv.iter_mut();
    let mut order = Vec::new();
    while let Some(v) = it.next(&mut lariv) {
        order.push(*v);
        *v += 100;
    }
    assert_eq!(order, vec![0, 2, 3, 4, 5]);
    let mut seen = Vec::new();
    let mut it = lariv.iter();
    while let Some(g) = it.next() {
        seen.push(*g.value());
    }
    assert_eq!(seen, vec![100, 102, 103, 104, 105]);
}

#[test]
fn dropped_claim_publishes_written_element() {
    let mut tag: AtomicOptionTag<LarivEpoch> = AtomicOptionTag::none();
    let mut slot: Option<u8> = None;
    {
        let mut g = tag.try_set().unwrap();
        g.write(&mut slot, 1);
    }
    assert!(tag.is_set());
    assert_eq!(slot, Some(1));
    assert_eq!(*tag.get(&slot).unwrap(), 1);
    assert!(tag.get_with_epoch(&slot, 1).is_some());
    assert!(tag.get_with_epoch(&slot, 0).is_none());
    let mut empty: AtomicOptionTag<NoEpoch> = AtomicOptionTag::none();
    {
        let _g = empty.try_set().unwrap();
    }
    assert!(!empty.is_set());
}

#[test]
fn guard_derefs_to_element() {
    let mut lariv = Lariv::new(4);
    let li = lariv.push(String::from("abc"));
    let g = lariv.get(li).unwrap();
    assert_eq!(g.len(), 3);
    assert_eq!(*g, "abc");
}
