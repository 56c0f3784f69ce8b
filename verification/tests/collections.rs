use lico::collections::arena::{Arena, Index};
use lico::collections::sorted_linear_map::SortedLinearMap;

#[test]
fn arena_construct() {
    let mut arena = Arena::<String>::new();
    assert_eq!(arena.len(), 0);
    assert!(arena.is_empty());
    arena.alloc_value("foo".to_string());
    assert_eq!(arena.len(), 1);
    assert!(!arena.is_empty());
}

#[test]
fn arena_alloc_get_iter() {
    #[derive(PartialEq, Debug)]
    struct T(u32);
    let mut arena = Arena::new();
    let idx1 = arena.alloc_value(T(42));
    assert_eq!(idx1.debug_text("collections::arena_alloc_get_iter::T"), "Index::<T>(1)");
    let idx2 = arena.alloc_value(T(17));
    assert_eq!(idx2.debug_text("collections::arena_alloc_get_iter::T"), "Index::<T>(2)");
    let idx3 = arena.alloc_value(T(17));
    assert_eq!(idx3.debug_text("collections::arena_alloc_get_iter::T"), "Index::<T>(3)");
    assert_eq!(arena.get(idx1).0, 42);
    assert_eq!(arena.get(idx2).0, 17);
    assert_eq!(arena.get(idx3).0, 17);
    arena.get_mut(idx2).0 = 18;
    let mut iter = arena.iter().into_iter();
    assert!(iter.next() == Some((idx1, &T(42))));
    assert!(iter.next() == Some((idx2, &T(18))));
    assert!(iter.next() == Some((idx3, &T(17))));
    assert!(iter.next().is_none());
}

#[test]
fn arena_alloc_many() {
    let mut arena = Arena::new();
    let slice = arena.alloc_many(vec![10, 20, 30]);
    assert_eq!(slice.debug_text("i32"), "Slice::<i32>(1..4)");
    assert_eq!(arena.get_slice(slice), &[10, 20, 30]);
    arena.get_slice_mut(slice)[1] = 21;
    let mut iter = arena.iter().into_iter();
    assert!(iter.next() == Some((Index::new(1), &10)));
    assert!(iter.next() == Some((Index::new(2), &21)));
    assert!(iter.next() == Some((Index::new(3), &30)));
    assert!(iter.next().is_none());
}

#[test]
fn arena_index_and_slice_numbers() {
    let mut arena = Arena::new();
    let a = arena.alloc_value(1u8);
    let s = arena.alloc_many(vec![2u8, 3, 4]);
    assert_eq!(a.as_u32(), 1);
    assert_eq!(s.len(), 3);
    assert!(!s.is_empty());
    assert_eq!(s.as_u64(), (2u64 << 32) | 5);
    assert_eq!(arena.get_slice(s), &[2, 3, 4]);
    let empty = arena.alloc_many(Vec::new());
    assert!(empty.is_empty());
    assert_eq!(empty.debug_text("a::b::u8"), "Slice::<u8>(5..5)");
    assert_eq!(a.debug_text("u8"), "Index::<u8>(1)");
    assert_eq!(Index::<u8>::new(1234567).debug_text(""), "Index::<>(1234567)");
}

#[test]
fn sorted_linear_map_construct() {
    let _: SortedLinearMap<u64, u64> = SortedLinearMap::new();
    let map = SortedLinearMap::<&str, &str>::new();
    assert_eq!(map.len(), 0);
    assert!(map.is_empty());
    assert_eq!(map.get(&"one"), None);
    assert!(map == SortedLinearMap::default());
}

#[test]
fn sorted_linear_map_insert() {
    let mut map = SortedLinearMap::from_vec(vec![("zero", 0), ("two", 2), ("three", 3)]);
    map.insert("one", 1);
    assert_eq!(map.len(), 4);
    assert!(!map.is_empty());
    assert_eq!(map.get(&"zero"), Some(&0));
    assert_eq!(map.get(&"one"), Some(&1));
    assert_eq!(map.get(&"four"), None);
}

#[test]
fn sorted_linear_map_remove() {
    let mut map =
        SortedLinearMap::from_vec(vec![("zero", 0), ("one", 1), ("two", 2), ("three", 3)]);
    assert_eq!(map.remove(&"two"), Some(2));
    assert_eq!(map.remove(&"four"), None);
    assert_eq!(map.len(), 3);
    assert!(!map.is_empty());
    assert!(map == SortedLinearMap::from_vec(vec![("zero", 0), ("one", 1), ("three", 3)]));
}

#[test]
fn sorted_linear_map_clear() {
    let mut map = SortedLinearMap::from_vec(vec![("zero", 0), ("one", 1), ("two", 2)]);
    assert!(!map.is_empty());
    map.clear();
    assert_eq!(map.len(), 0);
    assert!(map.is_empty());
    assert!(map == SortedLinearMap::default());
}

#[test]
fn sorted_linear_map_contains_key() {
    let map = SortedLinearMap::from_vec(vec![("aaa", 0), ("aad", 1), ("aac", 2)]);
    assert!(map.contains_key(&"aac"));
    assert!(!map.contains_key(&"aab"));
}

#[test]
fn sorted_linear_map_iter() {
    let map = SortedLinearMap::from_vec(vec![("zero", 0), ("one", 1), ("two", 2)]);
    let mut iter = map.iter();
    assert_eq!(iter.next(), Some(&("one", 1)));
    assert_eq!(iter.next(), Some(&("two", 2)));
    assert_eq!(iter.next(), Some(&("zero", 0)));
    assert_eq!(iter.next(), None);
}

#[test]
fn sorted_linear_map_drain() {
    let mut map = SortedLinearMap::from_vec(vec![("zero", 0), ("one", 1), ("two", 2)]);
    let mut iter = map.drain();
    assert_eq!(iter.next(), Some(("one", 1)));
    assert_eq!(iter.next(), Some(("two", 2)));
    assert_eq!(iter.next(), Some(("zero", 0)));
    assert_eq!(iter.next(), None);
    assert!(map.is_empty());
}

#[test]
fn sorted_linear_map_into_iter() {
    let map = SortedLinearMap::from_vec(vec![("zero", 0), ("one", 1), ("two", 2)]);
    let mut iter = map.into_iter();
    assert_eq!(iter.next(), Some(("one", 1)));
    assert_eq!(iter.next(), Some(("two", 2)));
    assert_eq!(iter.next(), Some(("zero", 0)));
    assert_eq!(iter.next(), None);
}

#[test]
fn sorted_linear_map_no_sync_with_clone() {
    let map1 = SortedLinearMap::from_vec(vec![("zero", 0), ("one", 1), ("two", 2)]);
    let mut map2 = map1.clone();
    map2.insert("three", 3);
    assert_eq!(map1.len(), 3);
    assert_eq!(map1.get(&"three"), None);
    assert!(map1 != map2);
}

#[test]
fn sorted_linear_map_equal_for_nan() {
    let map1 = SortedLinearMap::from_vec(vec![("nan", f64::NAN)]);
    let map2 = SortedLinearMap::from_vec(vec![("nan", f64::NAN)]);
    assert!(map1 != map2);
}

#[test]
fn sorted_linear_map_debug() {
    let map = SortedLinearMap::from_vec(vec![("key", 1), ("foo", 3)]);
    assert_eq!(map.debug_text(), r#"{"foo": 3, "key": 1}"#);
}

#[test]
fn sorted_linear_map_insert_replaces_and_keeps_order() {
    let mut map: SortedLinearMap<u64, &str> = SortedLinearMap::with_capacity(4);
    assert_eq!(map.insert(5, "five"), None);
    assert_eq!(map.insert(1, "one"), None);
    assert_eq!(map.insert(3, "three"), None);
    assert_eq!(map.insert(3, "THREE"), Some("three"));
    assert_eq!(map.len(), 3);
    let keys: Vec<u64> = map.iter().map(|(k, _)| *k).collect();
    assert_eq!(keys, vec![1, 3, 5]);
    assert_eq!(map.get(&3), Some(&"THREE"));
    assert_eq!(map.remove(&1), Some("one"));
    assert_eq!(map.get(&1), None);
    assert_eq!(map.debug_text(), r#"{3: "THREE", 5: "five"}"#);
    assert_eq!(SortedLinearMap::<u64, u8>::new().debug_text(), "{}");
}

#[test]
fn sorted_linear_map_from_vec_with_repeated_key() {
    let map = SortedLinearMap::from_vec(vec![(2u64, 'a'), (1, 'b'), (2, 'c')]);
    assert_eq!(map.len(), 2);
    assert!(map.contains_key(&2));
    assert!(map.contains_key(&1));
}
