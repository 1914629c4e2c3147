use fab_line::ordered_map::OrderedMap;
use fab_line::stats::sorted_copy;

#[test]
fn a_map_keeps_its_keys_in_order() {
    let mut m: OrderedMap<String, u64> = OrderedMap::new();
    assert_eq!(m.len(), 0);
    assert!(m.get(&"a".to_string()).is_none());
    for (k, v) in [("st06twin", 1u64), ("st01", 2), ("st06", 3)] {
        assert!(m.insert(k.to_string(), v).is_none());
    }
    assert_eq!(m.insert("st01".to_string(), 9), Some(2));
    let keys: Vec<String> = (0..m.len()).map(|i| m.key_at(i).clone()).collect();
    assert_eq!(keys, vec!["st01", "st06", "st06twin"]);
    let values: Vec<u64> = (0..m.len()).map(|i| *m.value_at(i)).collect();
    assert_eq!(values, vec![9, 3, 1]);
    assert_eq!(m.remove(&"st06".to_string()), Some(3));
    assert_eq!(m.remove(&"st06".to_string()), None);
    assert_eq!(m.len(), 2);
}

#[test]
fn keys_before_a_key_are_dropped() {
    let mut m: OrderedMap<i64, u64> = OrderedMap::new();
    for k in [5i64, -3, 7, 0] {
        m.insert(k, 1);
    }
    m.drop_before(&5);
    assert_eq!(m.len(), 2);
    assert_eq!(*m.key_at(0), 5);
    m.drop_before(&100);
    assert_eq!(m.len(), 0);
}

#[test]
fn pairs_are_ordered_by_both_parts() {
    let mut m: OrderedMap<(String, i32), u64> = OrderedMap::new();
    m.insert(("b".to_string(), 0), 1);
    m.insert(("a".to_string(), 2), 2);
    m.insert(("a".to_string(), -1), 3);
    let values: Vec<u64> = (0..m.len()).map(|i| *m.value_at(i)).collect();
    assert_eq!(values, vec![3, 2, 1]);
}

#[test]
fn values_are_sorted() {
    assert_eq!(sorted_copy(&vec![3, 1, 2, 3, 0]), vec![0, 1, 2, 3, 3]);
    assert_eq!(sorted_copy(&Vec::new()), Vec::<u64>::new());
}
