use mut_set::{
    CapacityError, Entry, Item, MutSet, MyItem, MyItemCtx, MyItemId, MyItemIdReadOnly,
    NoHashBuildHasher, NoHashHasher,
};

fn item(id1: usize, id2: &str, ctx1: isize, ctx2: &str) -> MyItem {
    MyItem { id1, id2: id2.to_string(), ctx1, ctx2: ctx2.to_string() }
}

fn id(id1: usize, id2: &str) -> MyItemId {
    MyItemId::new(id1, id2.to_string())
}

#[test]
fn empty_set_behaviour() {
    let mut set: MutSet<MyItem> = MutSet::new();
    assert_eq!(set.len(), 0);
    assert!(set.is_empty());
    assert!(!set.contains(&id(1, "a")));
    assert!(set.get(&id(1, "a")).is_none());
    assert!(set.id_get_mut(&id(1, "a")).is_none());
    assert!(!set.remove(&id(1, "a")));
    assert!(set.take(&id(1, "a")).is_none());
    assert!(set.replace(item(1, "a", 0, "")).is_none());
    assert_eq!(set.len(), 1);
    assert!(!set.is_empty());
    let empty: MutSet<MyItem> = MutSet::decode(Vec::new());
    assert!(empty.is_empty());
    assert_eq!(empty.encode().len(), 0);
    let mut sorted_empty: MutSet<MyItem> = MutSet::new();
    sorted_empty.sort();
    assert!(sorted_empty.is_empty());
}

#[test]
fn remove_and_take_round_trip() {
    let mut set: MutSet<MyItem> = MutSet::new();
    set.insert(item(5, "e", 50, "v"));
    set.insert(item(6, "f", 60, "w"));
    let taken = set.take(&id(5, "e")).unwrap();
    assert_eq!(taken.id1, 5);
    assert_eq!(taken.id2, "e");
    assert_eq!(taken.ctx1, 50);
    assert_eq!(taken.ctx2, "v");
    assert_eq!(set.len(), 1);
    assert!(set.id_remove(&id(6, "f")));
    assert!(!set.id_remove(&id(6, "f")));
    assert!(set.is_empty());
    // a taken item is whole again: its identity fields may change freely
    let mut reborn = taken;
    reborn.id1 = 7;
    set.insert(reborn);
    assert!(set.id_contains(&id(7, "e")));
}

#[test]
fn capacity_management() {
    let mut set: MutSet<MyItem> = MutSet::with_capacity(10);
    assert_eq!(set.capacity(), 10);
    assert!(set.is_empty());
    set.insert(item(1, "a", 0, ""));
    set.reserve(20);
    assert!(set.capacity() >= 21);
    assert_eq!(set.try_reserve(5), Ok(()));
    assert!(set.capacity() >= 6);
    // one item is stored, so this request does not fit in usize
    assert_eq!(set.try_reserve(usize::MAX), Err(CapacityError::Overflow));
    set.shrink_to(3);
    assert_eq!(set.capacity(), 3);
    set.shrink_to_fit();
    assert_eq!(set.capacity(), 1);
    set.clear();
    assert!(set.is_empty());
    assert_eq!(set.len(), 0);
}

#[test]
fn hasher_accessors() {
    let set: MutSet<MyItem> = MutSet::with_hasher(NoHashBuildHasher::new());
    assert!(set.is_empty());
    let set2: MutSet<MyItem> = MutSet::with_capacity_and_hasher(4, NoHashBuildHasher);
    assert_eq!(set2.capacity(), 4);
    let mut state: NoHashHasher = set.hasher().build_hasher();
    state.write_u64(42);
    assert_eq!(state.finish(), 42);
    assert_eq!(set.hash_one(99), 99);
}

#[test]
fn entry_vacant_then_occupied() {
    let mut set: MutSet<MyItem> = MutSet::new();
    let e = set.id_entry(&id(4, "d"));
    assert_eq!(e.key().id1, 4);
    match e {
        Entry::Occupied(_) => panic!("expected vacant"),
        Entry::Vacant(v) => {
            assert_eq!(v.key().id1, 4);
            let c = v.insert(&mut set, item(4, "d", 40, "made"));
            assert_eq!(c.ctx1, 40);
            c.ctx1 = 41;
        },
    }
    let e = set.id_entry(&id(4, "d"));
    match e {
        Entry::Occupied(o) => {
            let got = o.get(&set);
            assert_eq!(got.0.id1, 4);
            assert_eq!(got.1.ctx1, 41);
            let c = o.get_mut(&mut set);
            c.ctx2 = "again".to_string();
            let old = o.insert(&mut set, item(4, "d", 44, "new"));
            assert_eq!(old.ctx1, 41);
            assert_eq!(old.ctx2, "again");
            let (k, t) = o.remove_entry(&mut set);
            assert_eq!(k.id1, 4);
            assert_eq!(t.ctx1, 44);
            assert_eq!(t.ctx2, "new");
        },
        Entry::Vacant(_) => panic!("expected occupied"),
    }
    assert!(set.is_empty());
}

#[test]
fn entry_upsert_operations() {
    let mut set: MutSet<MyItem> = MutSet::new();
    set.insert(item(1, "a", 10, "x"));
    // occupied: or_insert_with hands out the stored context untouched
    let c = set.id_entry(&id(1, "a")).or_insert_with(&mut set, || MyItemCtx {
        ctx1: 0,
        ctx2: String::new(),
    });
    assert_eq!(c.ctx1, 10);
    // vacant: or_insert_with builds the context for the known identity
    let c = set.id_entry(&id(2, "b")).or_insert_with(&mut set, || MyItemCtx {
        ctx1: 20,
        ctx2: "y".to_string(),
    });
    assert_eq!(c.ctx1, 20);
    assert_eq!(set.len(), 2);
    // vacant: or_insert_with_key builds the whole item from the identity
    let c = set
        .id_entry(&id(3, "c"))
        .or_insert_with_key(&mut set, |k: &MyItemId| MyItem {
            id1: k.id1,
            id2: k.id2.clone(),
            ctx1: k.id1 as isize * 10,
            ctx2: "made".to_string(),
        });
    assert_eq!(c.ctx1, 30);
    assert_eq!(set.len(), 3);
    // or_default starts a vacant slot from the default context
    let c = set.id_entry(&id(4, "d")).or_default(&mut set);
    assert_eq!(c.ctx1, 0);
    assert_eq!(c.ctx2, "");
    assert_eq!(set.len(), 4);
    // and_modify touches only an occupied slot, then chains
    let e = set.id_entry(&id(1, "a")).and_modify(&mut set, |c: &MyItemCtx| MyItemCtx {
        ctx1: c.ctx1 + 1,
        ctx2: c.ctx2.clone(),
    });
    let c = e.or_default(&mut set);
    assert_eq!(c.ctx1, 11);
    let e = set.id_entry(&id(9, "z")).and_modify(&mut set, |c: &MyItemCtx| MyItemCtx {
        ctx1: c.ctx1 + 1,
        ctx2: c.ctx2.clone(),
    });
    assert_eq!(set.len(), 4);
    let k = match e {
        Entry::Vacant(v) => v.into_key(),
        Entry::Occupied(_) => panic!("expected vacant"),
    };
    assert_eq!(k.id1, 9);
    // insert_entry stores under either state and hands back an occupied handle
    let o = set.id_entry(&id(9, "z")).insert_entry(&mut set, item(9, "z", 90, "q"));
    assert_eq!(o.get(&set).1.ctx1, 90);
    assert_eq!(set.len(), 5);
}

#[test]
fn retain_keeps_approved_items() {
    let mut set: MutSet<MyItem> = MutSet::new();
    for k in 1..=6usize {
        set.insert(item(k, "n", k as isize, ""));
    }
    set.retain(|i: &MyItemId, _c: &MyItemCtx| i.id1 % 2 == 0);
    assert_eq!(set.len(), 3);
    assert!(set.contains(&id(2, "n")));
    assert!(set.contains(&id(4, "n")));
    assert!(set.contains(&id(6, "n")));
    assert!(!set.contains(&id(1, "n")));
    assert!(!set.contains(&id(3, "n")));
    assert!(!set.contains(&id(5, "n")));
}

#[test]
fn algebra_exact_values() {
    let a: MutSet<MyItem> = MutSet::from_vec(vec![
        item(1, "", 1, ""),
        item(2, "", 2, ""),
        item(3, "", 3, ""),
    ]);
    let b: MutSet<MyItem> = MutSet::from_vec(vec![item(4, "", 4, ""), item(2, "", 9, ""), item(3, "", 9, "")]);
    let mut diff: Vec<usize> = a.difference(&b).into_iter().map(|t| t.id1).collect();
    diff.sort();
    assert_eq!(diff, vec![1]);
    let mut diff_back: Vec<usize> = b.difference(&a).into_iter().map(|t| t.id1).collect();
    diff_back.sort();
    assert_eq!(diff_back, vec![4]);
    let mut sym: Vec<usize> = a.symmetric_difference(&b).into_iter().map(|t| t.id1).collect();
    sym.sort();
    assert_eq!(sym, vec![1, 4]);
    let mut uni: Vec<usize> = a.union(&b).into_iter().map(|t| t.id1).collect();
    uni.sort();
    assert_eq!(uni, vec![1, 2, 3, 4]);
    assert!(!a.is_disjoint(&b));
    assert!(a.is_disjoint(&MutSet::from_vec(vec![item(9, "", 9, "")])));
    let sub: MutSet<MyItem> = MutSet::from_vec(vec![item(2, "", 0, "")]);
    assert!(sub.is_subset(&a));
    assert!(!a.is_subset(&sub));
    assert!(a.is_superset(&sub));
}

#[test]
fn decode_later_duplicate_wins() {
    let set: MutSet<MyItem> = MutSet::decode(vec![
        item(1, "k", 10, "first"),
        item(2, "k", 20, ""),
        item(1, "k", 30, "second"),
    ]);
    assert_eq!(set.len(), 2);
    let got = set.get(&id(1, "k")).unwrap();
    assert_eq!(got.1.ctx1, 30);
    assert_eq!(got.1.ctx2, "second");
}

#[test]
fn from_vec_first_duplicate_wins() {
    let set: MutSet<MyItem> = MutSet::from_vec(vec![
        item(1, "k", 10, "first"),
        item(2, "k", 20, ""),
        item(1, "k", 30, "second"),
    ]);
    assert_eq!(set.len(), 2);
    let got = set.get(&id(1, "k")).unwrap();
    assert_eq!(got.1.ctx1, 10);
    assert_eq!(got.1.ctx2, "first");
}

#[test]
fn set_eq_compares_content() {
    let a: MutSet<MyItem> = MutSet::from_vec(vec![item(1, "a", 1, ""), item(2, "b", 2, "")]);
    let b: MutSet<MyItem> = MutSet::from_vec(vec![item(2, "b", 2, ""), item(1, "a", 1, "")]);
    assert!(a.set_eq(&b));
    assert!(a.set_eq(&a.duplicate()));
    let c: MutSet<MyItem> = MutSet::from_vec(vec![item(1, "a", 9, ""), item(2, "b", 2, "")]);
    assert!(!a.set_eq(&c));
    let d: MutSet<MyItem> = MutSet::from_vec(vec![item(1, "a", 1, "")]);
    assert!(!a.set_eq(&d));
}

#[test]
fn item_trait_surface() {
    let x = item(5, "five", 50, "c");
    let k: MyItemId = x.id();
    assert_eq!(k.id1, 5);
    assert_eq!(k.id2, "five");
    assert!(MyItem::eq_id(&k, &id(5, "five")));
    assert!(!MyItem::eq_id(&k, &id(5, "four")));
    assert!(MyItem::le_id(&id(1, "z"), &id(2, "a")));
    let (i, c) = x.split();
    assert_eq!(i.id1, 5);
    assert_eq!(c.ctx1, 50);
    let back = MyItem::compose(i, c);
    assert_eq!(back.id1, 5);
    assert_eq!(back.ctx2, "c");
    let d = MyItem::default_ctx();
    assert_eq!(d.ctx1, 0);
    assert_eq!(d.ctx2, "");
    assert!(MyItem::eq_ctx(&MyItem::dup_ctx(&d), &d));
}

#[test]
fn id_readonly_projection() {
    let view = MyItemIdReadOnly::of_item(item(8, "h", 80, "c"));
    assert_eq!(view.id1(), 8);
    assert_eq!(view.id2(), "h");
    assert_eq!(view.ctx1, 80);
    let mut view = view;
    view.set_ctx1(81);
    view.set_ctx2("d".to_string());
    let back = view.into_item();
    assert_eq!(back.id1, 8);
    assert_eq!(back.id2, "h");
    assert_eq!(back.ctx1, 81);
    assert_eq!(back.ctx2, "d");
}
