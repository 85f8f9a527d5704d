use sand_game::dyn_store::DynStore;

#[test]
fn added_values_are_read_back() {
    let mut s: DynStore<u32> = DynStore::new(4);
    let a = s.add(10);
    let b = s.add(20);
    assert_ne!(a, b);
    assert_eq!(s.get(a), Some(&10));
    assert_eq!(s.get(b), Some(&20));
}

#[test]
fn deleted_handle_stays_stale_after_slot_reuse() {
    let mut s: DynStore<u32> = DynStore::new(0);
    let a = s.add(1);
    s.delete(a);
    assert_eq!(s.get(a), None);
    let b = s.add(2);
    assert_eq!(b.index, a.index);
    assert_ne!(b, a);
    assert_eq!(s.get(a), None);
    assert_eq!(s.get(b), Some(&2));
}

#[test]
fn get_mut_updates_in_place() {
    let mut s: DynStore<u32> = DynStore::new(0);
    let a = s.add(5);
    if let Some(v) = s.get_mut(a) {
        *v += 1;
    }
    assert_eq!(s.get(a), Some(&6));
    s.delete(a);
    assert!(s.get_mut(a).is_none());
}

#[test]
fn unknown_handle_resolves_to_none() {
    let mut s: DynStore<u32> = DynStore::new(0);
    let a = s.add(5);
    let mut far = a;
    far.index = 1000;
    assert_eq!(s.get(far), None);
    let mut future = a;
    future.generation += 1;
    assert_eq!(s.get(future), None);
}

#[test]
fn iteration_skips_free_slots_in_index_order() {
    let mut s: DynStore<u32> = DynStore::new(0);
    let hs: Vec<_> = (0..6).map(|i| s.add(i * 10)).collect();
    s.delete(hs[1]);
    s.delete(hs[4]);
    let mut it = s.iter();
    let mut seen = Vec::new();
    while let Some(v) = it.next(&s) {
        seen.push(*v);
    }
    assert_eq!(seen, vec![0, 20, 30, 50]);
    assert_eq!(it.next(&s), None);
    let mut again = s.iter();
    assert_eq!(again.next(&s), Some(&0));
}

#[test]
fn store_grows_past_its_first_block() {
    let mut s: DynStore<u64> = DynStore::new(0);
    let hs: Vec<_> = (0..200u64).map(|i| s.add(i)).collect();
    for (i, h) in hs.iter().enumerate() {
        assert_eq!(s.get(*h), Some(&(i as u64)));
    }
    let mut it = s.iter();
    let mut n = 0;
    while it.next(&s).is_some() {
        n += 1;
    }
    assert_eq!(n, 200);
}

#[test]
fn empty_store_iterates_nothing() {
    let s: DynStore<u8> = DynStore::new(8);
    let mut it = s.iter();
    assert_eq!(it.next(&s), None);
}

#[test]
fn freed_slot_is_reused_before_growing() {
    let mut s: DynStore<u32> = DynStore::new(0);
    let hs: Vec<_> = (0..64).map(|i| s.add(i)).collect();
    s.delete(hs[10]);
    let again = s.add(99);
    assert_eq!(again.index, 10);
    let fresh = s.add(100);
    assert_eq!(fresh.index, 64);
}

#[test]
fn iterator_stays_exhausted() {
    let mut s: DynStore<u32> = DynStore::new(0);
    let a = s.add(10);
    let b = s.add(20);
    let c = s.add(30);
    s.delete(b);
    let mut it = s.iter();
    assert_eq!(it.next(&s), Some(&10));
    assert_eq!(it.next(&s), Some(&30));
    assert_eq!(it.next(&s), None);
    assert_eq!(it.next(&s), None);
    assert_eq!(s.get(a), Some(&10));
    assert_eq!(s.get(c), Some(&30));
}
