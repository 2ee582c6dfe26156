use container_traits::{
    Container, CopyDictionary, CopyMap, DynamicContainer, Iterable, VecDictionary,
};

fn two_entries() -> VecDictionary<String> {
    let mut d = VecDictionary::new();
    assert_eq!(d.insert(1, "a".to_string()), None);
    assert_eq!(d.insert(2, "b".to_string()), None);
    d
}

#[test]
fn scenario_insert_get_remove() {
    let mut d = two_entries();
    assert_eq!(d.len(), 2);
    assert_eq!(d.get(1), Some(&"a".to_string()));
    assert_eq!(d.remove(1), Some("a".to_string()));
    assert_eq!(d.len(), 1);
    assert_eq!(d.get(1), None);
    assert!(d.contains(2));
}

#[test]
fn new_dictionary_is_empty() {
    let d: VecDictionary<u32> = VecDictionary::new();
    assert_eq!(d.len(), 0);
    assert_eq!(d.capacity(), 0);
    assert_eq!(d.get(0), None);
    assert!(!d.contains(0));
}

#[test]
fn insert_new_key_grows_len_by_one() {
    let mut d = VecDictionary::new();
    for k in 0..10u64 {
        assert_eq!(d.len(), k as usize);
        assert_eq!(d.insert(k * 7, k as u32), None);
        assert_eq!(d.len(), k as usize + 1);
    }
}

#[test]
fn insert_existing_key_keeps_len() {
    let mut d = two_entries();
    assert_eq!(d.insert(2, "c".to_string()), Some("b".to_string()));
    assert_eq!(d.len(), 2);
}

#[test]
fn add_grows_len_by_one() {
    let mut d = VecDictionary::new();
    d.add((5, 50u32));
    assert_eq!(d.len(), 1);
    d.add((6, 60u32));
    assert_eq!(d.len(), 2);
    assert_eq!(d.get(5), Some(&50));
    assert_eq!(d.get(6), Some(&60));
}

#[test]
fn round_trip_insert_then_get() {
    let mut d = VecDictionary::new();
    for k in [0u64, 3, u64::MAX, 17] {
        assert_eq!(d.insert(k, k.wrapping_mul(3)), None);
        assert_eq!(d.get(k), Some(&k.wrapping_mul(3)));
    }
}

#[test]
fn overwrite_returns_previous_value() {
    let mut d = VecDictionary::new();
    assert_eq!(d.insert(9, "v1".to_string()), None);
    assert_eq!(d.insert(9, "v2".to_string()), Some("v1".to_string()));
    assert_eq!(d.get(9), Some(&"v2".to_string()));
    assert_eq!(d.len(), 1);
}

#[test]
fn absent_keys_give_nothing() {
    let mut d = two_entries();
    assert_eq!(d.get(3), None);
    d.remove(2);
    assert_eq!(d.get(2), None);
    for k in 0..5u64 {
        assert_eq!(d.contains(k), d.get(k).is_some());
    }
}

#[test]
fn remove_present_key() {
    let mut d = two_entries();
    assert_eq!(d.remove(2), Some("b".to_string()));
    assert_eq!(d.len(), 1);
    assert_eq!(d.get(1), Some(&"a".to_string()));
}

#[test]
fn remove_absent_key() {
    let mut d = two_entries();
    assert_eq!(d.remove(7), None);
    assert_eq!(d.len(), 2);
    let mut e: VecDictionary<u8> = VecDictionary::new();
    assert_eq!(e.remove(0), None);
    assert_eq!(e.len(), 0);
}

#[test]
fn remove_keeps_other_entries() {
    let mut d = VecDictionary::new();
    for k in 0..6u64 {
        d.insert(k, k + 100);
    }
    assert_eq!(d.remove(2), Some(102));
    for k in 0..6u64 {
        if k == 2 {
            assert_eq!(d.get(k), None);
        } else {
            assert_eq!(d.get(k), Some(&(k + 100)));
        }
    }
    assert_eq!(d.len(), 5);
}

#[test]
fn get_mut_changes_value_in_place() {
    let mut d = two_entries();
    if let Some(v) = d.get_mut(1) {
        v.push('z');
    }
    assert_eq!(d.get(1), Some(&"az".to_string()));
    assert!(d.get_mut(3).is_none());
    assert_eq!(d.len(), 2);
}

#[test]
fn reserve_gives_headroom() {
    let mut d: VecDictionary<u32> = VecDictionary::new();
    d.reserve(10);
    assert!(d.capacity() >= 10);
    let before = d.capacity();
    d.reserve(3);
    assert_eq!(d.capacity(), before);
    d.insert(1, 1);
    d.reserve(20);
    assert!(d.capacity() >= 21);
    assert_eq!(d.len(), 1);
    assert_eq!(d.get(1), Some(&1));
}

#[test]
fn capacity_grows_with_inserts() {
    let mut d = VecDictionary::new();
    let mut last = d.capacity();
    for k in 0..40u64 {
        d.insert(k, k);
        assert!(d.capacity() >= d.len());
        assert!(d.capacity() >= last);
        last = d.capacity();
    }
    assert_eq!(d.capacity(), 64);
    d.remove(0);
    assert_eq!(d.capacity(), 64);
}

#[test]
fn shrink_to_fit_keeps_contents() {
    let mut d = VecDictionary::new();
    for k in 0..5u64 {
        d.insert(k, k * 2);
    }
    d.reserve(100);
    assert!(d.capacity() >= 105);
    d.shrink_to_fit();
    assert_eq!(d.capacity(), 5);
    assert_eq!(d.len(), 5);
    for k in 0..5u64 {
        assert_eq!(d.get(k), Some(&(k * 2)));
    }
}

#[test]
fn items_follow_insertion_order() {
    let mut d = VecDictionary::new();
    d.insert(30, "x".to_string());
    d.insert(10, "y".to_string());
    d.insert(20, "z".to_string());
    d.insert(10, "w".to_string());
    let refs = d.items();
    assert_eq!(refs.len(), d.len());
    assert_eq!(refs, vec![&"x".to_string(), &"w".to_string(), &"z".to_string()]);
    d.remove(30);
    assert_eq!(d.into_items(), vec!["w".to_string(), "z".to_string()]);
}

#[test]
fn into_items_of_empty_dictionary() {
    let d: VecDictionary<u8> = VecDictionary::new();
    assert_eq!(d.items().len(), 0);
    assert_eq!(d.into_items(), Vec::<u8>::new());
}

#[test]
fn item_mut_writes_through() {
    let mut d = VecDictionary::new();
    d.insert(4, 40u32);
    d.insert(8, 80u32);
    *d.item_mut(1) += 1;
    assert_eq!(d.get(8), Some(&81));
    assert_eq!(d.get(4), Some(&40));
    assert_eq!(d.len(), 2);
    assert_eq!(d.into_items(), vec![40, 81]);
}
