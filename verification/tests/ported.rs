use mut_set::{MutSet, MyItem, MyItemCtx, MyItemId};

fn item(id1: usize, id2: &str, ctx1: isize, ctx2: &str) -> MyItem {
    MyItem { id1, id2: id2.to_string(), ctx1, ctx2: ctx2.to_string() }
}

fn id(id1: usize, id2: &str) -> MyItemId {
    MyItemId::new(id1, id2.to_string())
}

#[test]
fn derive_test() {
    let mut set: MutSet<MyItem> = MutSet::new();
    set.insert(item(2, "www", -1, "ccc"));
    assert!(set.insert(item(1, "ww", -2, "cc")));
    for v in set.iter() {
        println!("{:?}", v);
    }
    set.iter_mut(|_id: &MyItemId, c: &MyItemCtx| MyItemCtx { ctx1: 0, ctx2: c.ctx2.clone() });
    for v in set.iter() {
        println!("{:?}", v.0.id1);
    }
    println!("{:?}", set.get(&id(2, "www")));
    // the item stored under (1, "ww") still has its identity, and its
    // context fields were mutated in place by the pass above
    let got = set.get(&id(1, "ww")).unwrap();
    assert_eq!(got.0.id1, 1);
    assert_eq!(got.0.id2, "ww");
    assert_eq!(got.1.ctx1, 0);
    assert_eq!(got.1.ctx2, "cc");
    let old = set.replace(item(1, "ww", -2, "cccc")).unwrap();
    assert_eq!(old.id1, 1);
    assert_eq!(old.id2, "ww");
    assert_eq!(old.ctx2, "cc");
    let got = set.get(&id(1, "ww")).unwrap();
    assert_eq!(got.1.ctx1, -2);
    assert_eq!(got.1.ctx2, "cccc");
    for v in set.into_iter_sorted() {
        println!("{:?}", v);
    }
}

#[test]
fn sort_test() {
    let mut set: MutSet<MyItem> = MutSet::new();
    set.insert(item(2, "www", -1, ""));
    assert!(set.insert(item(1, "ww", -2, "")));
    for v in set.iter() {
        println!("{:?}", v);
    }
    set.iter_mut(|_id: &MyItemId, c: &MyItemCtx| MyItemCtx { ctx1: 0, ctx2: c.ctx2.clone() });
    println!("{:?}", set.id_get(&id(2, "www")));
    let got = set.id_get(&id(1, "ww")).unwrap();
    assert_eq!(got.0.id1, 1);
    assert_eq!(got.1.ctx1, 0);
    let old = set.replace(item(1, "ww", -2, "")).unwrap();
    assert_eq!(old.id1, 1);
    assert_eq!(old.id2, "ww");
    let got = set.id_get(&id(1, "ww")).unwrap();
    assert_eq!(got.1.ctx1, -2);
    println!("==================");
    set.sort();
    let mut last: usize = 0;
    for v in set.into_iter() {
        println!("{:?}", v);
        assert!(last <= v.id1);
        last = v.id1;
    }
}

#[test]
fn single_id_test() {
    let mut set: MutSet<MyItem> = MutSet::new();
    set.insert(item(2, "", -1, ""));
    set.insert(item(1, "", -2, ""));
    for v in set.iter() {
        println!("{:?}", v);
    }
    set.iter_mut(|_id: &MyItemId, c: &MyItemCtx| MyItemCtx { ctx1: 0, ctx2: c.ctx2.clone() });
    println!("{:?}", set.get(&id(2, "")));
    assert!(set.get(&id(2, "")).is_some());
    set.replace(item(1, "", -2, ""));
    for v in set.into_iter() {
        println!("{:?}", v);
    }
}

#[test]
fn serde_test() {
    let set: MutSet<MyItem> = MutSet::from_vec(vec![
        item(1, "ww", -2, ""),
        item(2, "ww", -3, ""),
    ]);
    // write the container out as a flat array of records
    let mut records: Vec<serde_json::Value> = Vec::new();
    for it in set.encode() {
        let mut o = serde_json::Map::new();
        o.insert("id1".to_string(), serde_json::Value::from(it.id1));
        o.insert("id2".to_string(), serde_json::Value::from(it.id2));
        o.insert("ctx1".to_string(), serde_json::Value::from(it.ctx1));
        o.insert("ctx2".to_string(), serde_json::Value::from(it.ctx2));
        records.push(serde_json::Value::Object(o));
    }
    let serialized = serde_json::to_string(&serde_json::Value::Array(records)).unwrap();
    println!("serialized = {}", serialized);
    // read it back and rebuild the container by repeated insertion
    let parsed: serde_json::Value = serde_json::from_str(&serialized).unwrap();
    let mut items: Vec<MyItem> = Vec::new();
    for rec in parsed.as_array().unwrap() {
        items.push(MyItem {
            id1: rec["id1"].as_u64().unwrap() as usize,
            id2: rec["id2"].as_str().unwrap().to_string(),
            ctx1: rec["ctx1"].as_i64().unwrap() as isize,
            ctx2: rec["ctx2"].as_str().unwrap().to_string(),
        });
    }
    let deserialized: MutSet<MyItem> = MutSet::decode(items);
    println!("deserialized len = {}", deserialized.len());
    assert!(set.set_eq(&deserialized));
    assert!(!set.set_eq(&MutSet::<MyItem>::new()));
}
