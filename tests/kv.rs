use collab::kv::MemKv;

#[test]
fn kv_point_ops_and_ranges() {
    let mut kv = MemKv::new();
    kv.insert(vec![1, 1], vec![10]);
    kv.insert(vec![1, 2], vec![20]);
    kv.insert(vec![2], vec![30]);
    kv.insert(vec![1, 1], vec![11]);
    assert_eq!(kv.get(&[1, 1]), Some(vec![11]));
    assert!(kv.contains(&[2]));
    let mut r = kv.range(&[1], &[2]);
    r.sort();
    assert_eq!(r, vec![(vec![1, 1], vec![11]), (vec![1, 2], vec![20])]);
    kv.remove_range(&[1, 2], &[3]);
    assert_eq!(kv.get(&[1, 2]), None);
    assert_eq!(kv.get(&[2]), None);
    assert_eq!(kv.get(&[1, 1]), Some(vec![11]));
    kv.remove(&[1, 1]);
    assert!(!kv.contains(&[1, 1]));
}
