use mut_set::{MutSet, MyItem, MyItemCtx, MyItemId};

#[test]
fn prototype_test() {
    let mut m: MutSet<MyItem> = MutSet::new();
    println!("len = {}", m.len());
    m.insert(MyItem { id1: 2, id2: "www".to_string(), ctx1: -1, ctx2: "ccc".to_string() });
    m.insert(MyItem { id1: 1, id2: "ww".to_string(), ctx1: -2, ctx2: "cc".to_string() });
    println!("len = {}", m.len());
    for v in m.iter() {
        println!("{}", v.0.id1);
    }
    m.iter_mut(|_id: &MyItemId, c: &MyItemCtx| MyItemCtx { ctx1: 0, ctx2: c.ctx2.clone() });
    // a mutable pass reaches the context fields only: the identity fields
    // cannot be written through it
    for v in m.iter() {
        println!("{:?} {:?}", v.0, v.1);
        assert_eq!(v.1.ctx1, 0);
    }
    let id1 = MyItemId::new(2, "www".to_string());
    println!("{:?}", m.get(&id1));
    assert!(m.get(&id1).is_some());
    for v in m.into_iter() {
        println!("{:?}", v);
    }
}
