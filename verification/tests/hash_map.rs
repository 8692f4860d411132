use bump_allocator::hashmap::HashMap;

#[test]
fn new_map_is_empty() {
    let m: HashMap<u64, u64> = HashMap::new();
    assert_eq!(m.len(), 0);
    assert!(m.is_empty());
    assert_eq!(m.get(&7), None);
}

#[test]
fn default_map_is_empty() {
    let m: HashMap<u64, u64> = Default::default();
    assert_eq!(m.len(), 0);
    assert!(m.is_empty());
}

#[test]
fn insert_then_get() {
    let mut m: HashMap<u64, u64> = HashMap::new();
    assert_eq!(m.insert(3, 10), None);
    assert_eq!(m.len(), 1);
    assert!(!m.is_empty());
    assert_eq!(m.get(&3), Some(&10));
    assert_eq!(m.get(&4), None);
}

#[test]
fn insert_replaces_and_returns_old_value() {
    let mut m: HashMap<u64, u64> = HashMap::new();
    assert_eq!(m.insert(3, 10), None);
    assert_eq!(m.insert(3, 20), Some(10));
    assert_eq!(m.len(), 1);
    assert_eq!(m.get(&3), Some(&20));
}

#[test]
fn colliding_keys_coexist() {
    // with sixteen chains, one hundred keys are sure to collide
    let mut m: HashMap<u64, u64> = HashMap::new();
    for k in 0..100u64 {
        assert_eq!(m.insert(k, k * k), None);
    }
    assert_eq!(m.len(), 100);
    for k in 0..100u64 {
        assert_eq!(m.get(&k), Some(&(k * k)));
    }
    assert_eq!(m.get(&100), None);
    // overwrite a few and check the others are untouched
    for k in (0..100u64).step_by(7) {
        assert_eq!(m.insert(k, 1000 + k), Some(k * k));
    }
    assert_eq!(m.len(), 100);
    for k in 0..100u64 {
        if k % 7 == 0 {
            assert_eq!(m.get(&k), Some(&(1000 + k)));
        } else {
            assert_eq!(m.get(&k), Some(&(k * k)));
        }
    }
}

#[test]
fn get_mut_writes_through() {
    let mut m: HashMap<u64, u64> = HashMap::new();
    m.insert(5, 50);
    m.insert(6, 60);
    match m.get_mut(&5) {
        Some(v) => {
            assert_eq!(*v, 50);
            *v = 55;
        }
        None => panic!("key must be present"),
    }
    assert_eq!(m.get(&5), Some(&55));
    assert_eq!(m.get(&6), Some(&60));
    assert_eq!(m.len(), 2);
    assert!(m.get_mut(&7).is_none());
}

#[test]
fn iter_lists_every_pair_once() {
    let mut m: HashMap<u64, u64> = HashMap::new();
    for k in 0..40u64 {
        m.insert(k, 2 * k);
    }
    let mut pairs: Vec<(u64, u64)> = m.iter().into_iter().map(|(k, v)| (*k, *v)).collect();
    pairs.sort();
    let expected: Vec<(u64, u64)> = (0..40u64).map(|k| (k, 2 * k)).collect();
    assert_eq!(pairs, expected);
}

#[test]
fn iter_on_empty_map_is_empty() {
    let m: HashMap<u64, u64> = HashMap::new();
    assert!(m.iter().is_empty());
}
