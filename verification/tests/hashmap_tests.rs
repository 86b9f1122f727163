use cc_rs::hashmap::{
    fnv_hash, hashmap_contains_bytes, hashmap_delete, hashmap_get_bytes, hashmap_get, hashmap_put,
    hashmap_put_bytes, new_hashmap,
};

fn run_hashmap_stress() {
    let mut map = new_hashmap();

    for i in 0..5000u64 {
        hashmap_put_bytes(&mut map, format!("key {i}").as_bytes(), i);
    }
    for i in 1000..2000 {
        hashmap_delete(&mut map, &format!("key {i}"));
    }
    for i in 1500..1600u64 {
        hashmap_put_bytes(&mut map, format!("key {i}").as_bytes(), i);
    }
    for i in 6000..7000u64 {
        hashmap_put_bytes(&mut map, format!("key {i}").as_bytes(), i);
    }

    for i in 0..1000u64 {
        assert_eq!(hashmap_get(&map, &format!("key {i}")), i);
    }
    for _ in 1000..1500 {
        assert_eq!(hashmap_get(&map, "no such key"), 0);
    }
    for i in 1500..1600u64 {
        assert_eq!(hashmap_get(&map, &format!("key {i}")), i);
    }
    for _ in 1600..2000 {
        assert_eq!(hashmap_get(&map, "no such key"), 0);
    }
    for i in 2000..5000u64 {
        assert_eq!(hashmap_get(&map, &format!("key {i}")), i);
    }
    for _ in 5000..6000 {
        assert_eq!(hashmap_get(&map, "no such key"), 0);
    }
    for i in 6000..7000u64 {
        hashmap_put_bytes(&mut map, format!("key {i}").as_bytes(), i);
    }

    assert_eq!(hashmap_get(&map, "no such key"), 0);
}

#[test]
fn hashmap_stress() {
    run_hashmap_stress();
}

#[test]
fn get_after_put_and_delete() {
    let mut map = new_hashmap();
    assert_eq!(hashmap_get_bytes(&map, b"a"), 0);
    hashmap_put(&mut map, "a", 7);
    assert_eq!(map.capacity, 16);
    assert_eq!(hashmap_get_bytes(&map, b"a"), 7);
    hashmap_put(&mut map, "a", 9);
    assert_eq!(hashmap_get_bytes(&map, b"a"), 9);
    assert_eq!(map.used, 1);
    assert!(hashmap_contains_bytes(&map, b"a"));
    hashmap_delete(&mut map, "a");
    assert_eq!(hashmap_get_bytes(&map, b"a"), 0);
    assert!(!hashmap_contains_bytes(&map, b"a"));
    // a tombstone still counts as used
    assert_eq!(map.used, 1);
}

#[test]
fn table_grows_at_seventy_percent() {
    let mut map = new_hashmap();
    for i in 0..12u64 {
        hashmap_put_bytes(&mut map, &[i as u8], i + 100);
    }
    // 12 of 16 buckets: 75% used, so the next key grows the table
    assert_eq!(map.capacity, 16);
    hashmap_put_bytes(&mut map, b"x", 1);
    assert_eq!(map.capacity, 32);
    assert_eq!(map.used, 13);
    for i in 0..12u64 {
        assert_eq!(hashmap_get_bytes(&map, &[i as u8]), i + 100);
    }
}

#[test]
fn fnv_values() {
    assert_eq!(fnv_hash(b""), 0xcbf29ce484222325);
    assert_eq!(fnv_hash(b"a"), 0xaf63bd4c8601b7be);
}

#[test]
fn keywords_are_stored_once_into_an_empty_table() {
    let mut map = cc_rs::hashmap::new_hashmap();
    let words = ["int", "return", "if", "while", "for", "char", "void", "long", "short", "struct",
        "union", "enum", "static", "extern", "typedef", "sizeof", "do", "else"];
    cc_rs::hashmap::populate_keywords(&mut map, &words);
    for w in words.iter() {
        assert_eq!(hashmap_get(&map, w), 1);
    }
    assert_eq!(hashmap_get(&map, "foo"), 0);
    let cap = map.capacity;
    assert!(cap > 16);
    cc_rs::hashmap::populate_keywords(&mut map, &["foo"]);
    assert_eq!(hashmap_get(&map, "foo"), 0);
    assert_eq!(map.capacity, cap);
}

#[test]
fn storing_or_deleting_one_key_leaves_the_others() {
    let mut map = new_hashmap();
    hashmap_put(&mut map, "alpha", 1);
    hashmap_put(&mut map, "beta", 2);
    hashmap_put(&mut map, "gamma", 3);
    hashmap_put(&mut map, "beta", 20);
    assert_eq!(hashmap_get(&map, "alpha"), 1);
    assert_eq!(hashmap_get(&map, "gamma"), 3);
    assert_eq!(hashmap_get(&map, "beta"), 20);
    hashmap_delete(&mut map, "alpha");
    assert_eq!(hashmap_get(&map, "alpha"), 0);
    assert_eq!(hashmap_get(&map, "beta"), 20);
    assert_eq!(hashmap_get(&map, "gamma"), 3);
}

#[test]
fn a_lookup_gives_the_value_stored_last() {
    let mut map = new_hashmap();
    for round in 0..3u64 {
        for i in 0..200u64 {
            hashmap_put_bytes(&mut map, format!("k{i}").as_bytes(), i * 10 + round);
        }
    }
    for i in 0..200u64 {
        assert_eq!(hashmap_get_bytes(&map, format!("k{i}").as_bytes()), i * 10 + 2);
    }
    assert_eq!(hashmap_get_bytes(&map, b"never stored"), 0);
}

#[test]
fn stores_and_deletions_leave_the_last_value() {
    let mut map = new_hashmap();
    hashmap_put(&mut map, "a", 1);
    hashmap_put(&mut map, "b", 2);
    hashmap_delete(&mut map, "a");
    assert_eq!(hashmap_get(&map, "a"), 0);
    assert_eq!(hashmap_get(&map, "b"), 2);
    hashmap_put(&mut map, "a", 3);
    hashmap_delete(&mut map, "b");
    assert_eq!(hashmap_get(&map, "a"), 3);
    assert_eq!(hashmap_get(&map, "b"), 0);
}
