use verdant::types::{IntoArray, TextLayoutCache};

#[test]
fn miss_then_hit() {
    let mut cache: TextLayoutCache<String> = TextLayoutCache::new(4);
    assert_eq!(cache.get(7), None);
    assert_eq!(cache.insert(7, "seven".to_string()), "seven");
    assert_eq!(cache.get(7).map(|s| s.as_str()), Some("seven"));
}

#[test]
fn insert_keeps_existing_value() {
    let mut cache: TextLayoutCache<u32> = TextLayoutCache::new(4);
    assert_eq!(*cache.insert(1, 10), 10);
    assert_eq!(*cache.insert(1, 20), 10);
    assert_eq!(cache.get(1), Some(&10));
}

#[test]
fn full_cache_evicts_least_recently_used_half() {
    let mut cache: TextLayoutCache<u32> = TextLayoutCache::new(4);
    cache.insert(1, 1);
    cache.insert(2, 2);
    cache.insert(3, 3);
    cache.insert(4, 4);
    // use 1 and 3 so that 2 and 4 are the oldest
    assert_eq!(cache.get(1), Some(&1));
    assert_eq!(cache.get(3), Some(&3));
    cache.insert(5, 5);
    assert_eq!(cache.get(2), None);
    assert_eq!(cache.get(4), None);
    assert_eq!(cache.get(1), Some(&1));
    assert_eq!(cache.get(3), Some(&3));
    assert_eq!(cache.get(5), Some(&5));
}

#[test]
fn zero_capacity_keeps_only_latest() {
    let mut cache: TextLayoutCache<u32> = TextLayoutCache::new(0);
    cache.insert(1, 1);
    cache.insert(2, 2);
    assert_eq!(cache.get(1), None);
    assert_eq!(cache.get(2), Some(&2));
}

#[test]
fn evicted_key_is_inserted_fresh() {
    let mut cache: TextLayoutCache<u32> = TextLayoutCache::new(2);
    cache.insert(1, 1);
    cache.insert(2, 2);
    // full: evicts down to one entry (the newest, key 2), then inserts key 1 anew
    assert_eq!(*cache.insert(1, 100), 100);
    assert_eq!(cache.get(2), Some(&2));
    assert_eq!(cache.get(1), Some(&100));
}

#[test]
fn tick_advances_on_every_lookup_and_insert() {
    let mut cache: TextLayoutCache<u32> = TextLayoutCache::new(4);
    assert_eq!(cache.current_tick(), 0);
    cache.get(1);
    assert_eq!(cache.current_tick(), 1);
    cache.insert(1, 10);
    cache.insert(1, 11);
    assert_eq!(cache.current_tick(), 3);
}

#[test]
fn into_array_converts_each_element() {
    let wide: [u64; 3] = [1u32, 70_000, u32::MAX].into_array();
    assert_eq!(wide, [1u64, 70_000, 4_294_967_295]);
    let chars: [u32; 2] = ['a', '\u{e9}'].into_array();
    assert_eq!(chars, [97, 233]);
    let empty: [u16; 0] = ([] as [u8; 0]).into_array();
    assert_eq!(empty.len(), 0);
}
