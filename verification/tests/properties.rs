use mut_set::{MutSet, MyItem, MyItemCtx, MyItemId};

fn item(id1: usize, id2: &str, ctx1: isize, ctx2: &str) -> MyItem {
    MyItem { id1, id2: id2.to_string(), ctx1, ctx2: ctx2.to_string() }
}

fn id(id1: usize, id2: &str) -> MyItemId {
    MyItemId::new(id1, id2.to_string())
}

fn sample() -> MutSet<MyItem> {
    MutSet::from_vec(vec![
        item(1, "a", 10, "x"),
        item(2, "b", 20, "y"),
        item(3, "c", 30, "z"),
    ])
}

#[test]
fn insert_then_get_finds_the_item() {
    let mut set: MutSet<MyItem> = MutSet::new();
    let x = item(7, "seven", -4, "ctx");
    assert!(set.insert(x));
    let got = set.get(&id(7, "seven")).unwrap();
    assert_eq!(got.0.id1, 7);
    assert_eq!(got.0.id2, "seven");
    assert_eq!(got.1.ctx1, -4);
    assert_eq!(got.1.ctx2, "ctx");
}

#[test]
fn duplicate_insert_is_a_no_op() {
    let mut set: MutSet<MyItem> = MutSet::new();
    assert!(set.insert(item(7, "seven", -4, "ctx")));
    assert_eq!(set.len(), 1);
    // same identity, different context: refused, nothing changes
    assert!(!set.insert(item(7, "seven", 99, "other")));
    assert_eq!(set.len(), 1);
    let got = set.get(&id(7, "seven")).unwrap();
    assert_eq!(got.1.ctx1, -4);
    assert_eq!(got.1.ctx2, "ctx");
}

#[test]
fn context_mutation_keeps_the_identity() {
    let mut set = sample();
    {
        let c = set.id_get_mut(&id(2, "b")).unwrap();
        c.ctx1 = 200;
        c.ctx2 = "updated".to_string();
    }
    assert_eq!(set.len(), 3);
    let got = set.get(&id(2, "b")).unwrap();
    assert_eq!(got.0.id1, 2);
    assert_eq!(got.0.id2, "b");
    assert_eq!(got.1.ctx1, 200);
    assert_eq!(got.1.ctx2, "updated");
    // the same holds for a full mutable pass
    set.iter_mut(|_id: &MyItemId, c: &MyItemCtx| MyItemCtx { ctx1: c.ctx1 + 1, ctx2: c.ctx2.clone() });
    let got = set.get(&id(2, "b")).unwrap();
    assert_eq!(got.1.ctx1, 201);
    let got = set.get(&id(1, "a")).unwrap();
    assert_eq!(got.1.ctx1, 11);
}

#[test]
fn decode_of_encode_restores_the_set() {
    let set = sample();
    let rebuilt = MutSet::<MyItem>::decode(set.encode());
    assert!(set.set_eq(&rebuilt));
    assert_eq!(rebuilt.len(), 3);
}

#[test]
fn difference_with_itself_is_empty() {
    let set = sample();
    assert_eq!(set.difference(&set).len(), 0);
}

#[test]
fn union_with_itself_is_itself() {
    let set = sample();
    let u = MutSet::<MyItem>::decode(set.union(&set));
    assert!(set.set_eq(&u));
}

#[test]
fn intersection_commutes_as_sets() {
    let a = sample();
    let b = MutSet::from_vec(vec![
        item(2, "b", 99, "q"),
        item(3, "c", 98, "r"),
        item(4, "d", 97, "s"),
    ]);
    let mut ab: Vec<usize> = a.intersection(&b).into_iter().map(|t| t.id1).collect();
    let mut ba: Vec<usize> = b.intersection(&a).into_iter().map(|t| t.id1).collect();
    ab.sort();
    ba.sort();
    assert_eq!(ab, vec![2, 3]);
    assert_eq!(ab, ba);
}

#[test]
fn every_set_is_its_own_subset() {
    let set = sample();
    assert!(set.is_subset(&set));
    assert!(set.is_superset(&set));
    assert!(!set.is_disjoint(&set));
    assert!(MutSet::<MyItem>::new().is_disjoint(&MutSet::new()));
}

#[test]
fn replace_scenario() {
    // the scenario from the upsert contract: two identities, then a replace
    let mut set: MutSet<MyItem> = MutSet::new();
    set.insert(item(2, "www", -1, "ccc"));
    set.insert(item(1, "ww", -2, "cc"));
    assert_eq!(set.len(), 2);
    let prior = set.replace(item(1, "ww", -3, "dd")).unwrap();
    assert_eq!(prior.id1, 1);
    assert_eq!(prior.id2, "ww");
    assert_eq!(prior.ctx1, -2);
    assert_eq!(prior.ctx2, "cc");
    let got = set.get(&id(1, "ww")).unwrap();
    assert_eq!(got.1.ctx1, -3);
    assert_eq!(got.1.ctx2, "dd");
    assert_eq!(set.len(), 2);
}

#[test]
fn sorted_view_orders_by_identity() {
    let mut set: MutSet<MyItem> = MutSet::new();
    set.insert(item(3, "t", 1, ""));
    set.insert(item(1, "o", 2, ""));
    set.insert(item(2, "w", 3, ""));
    let sorted: Vec<usize> = set.iter_sorted().into_iter().map(|t| t.id1).collect();
    assert_eq!(sorted, vec![1, 2, 3]);
    // the unsorted traversal is unspecified in order but has the same items
    let mut unsorted: Vec<usize> = set.iter().into_iter().map(|p| p.0.id1).collect();
    assert_eq!(unsorted.len(), 3);
    unsorted.sort();
    assert_eq!(unsorted, vec![1, 2, 3]);
    // the consuming sorted traversal agrees
    let consumed: Vec<usize> = set.into_iter_sorted().into_iter().map(|t| t.id1).collect();
    assert_eq!(consumed, vec![1, 2, 3]);
}

#[test]
fn descending_view_reverses_the_order() {
    let mut set: MutSet<MyItem> = MutSet::new();
    set.insert(item(3, "t", 1, ""));
    set.insert(item(1, "o", 2, ""));
    set.insert(item(2, "w", 3, ""));
    let desc: Vec<usize> = set.iter_sorted_desc().into_iter().map(|t| t.id1).collect();
    assert_eq!(desc, vec![3, 2, 1]);
    assert_eq!(set.len(), 3);
    let consumed: Vec<usize> = set.into_iter_sorted_desc().into_iter().map(|t| t.id1).collect();
    assert_eq!(consumed, vec![3, 2, 1]);
}
