use unsized_hashtable::fast_hash::fast_hash;
use unsized_hashtable::EntryPlace;
use unsized_hashtable::UnsizedHashtable;

fn insert_written(t: &mut UnsizedHashtable<u64>, key: &[u8], v: u64) -> bool {
    match t.insert_and_entry(key) {
        Ok(e) => {
            e.write(t, v);
            true
        }
        Err(_) => false,
    }
}

#[test]
fn empty_key() {
    let mut t: UnsizedHashtable<u64> = UnsizedHashtable::new();
    assert!(insert_written(&mut t, b"", 7));
    assert_eq!(t.len(), 1);
    assert_eq!(t.get(b""), Some(&7));
    let mut it = t.iter();
    let e = it.next(&t).expect("one entry");
    assert_eq!(e.key(&t), Vec::<u8>::new());
    assert_eq!(*e.get(&t), 7);
    assert!(it.next(&t).is_none());
}

#[test]
fn boundary_lengths_routing_and_key_size() {
    let mut t: UnsizedHashtable<u64> = UnsizedHashtable::new();
    let keys: [(&[u8], fn(&EntryPlace) -> bool); 7] = [
        (b"a", |p| matches!(p, EntryPlace::InTable1(_))),
        (b"12345678", |p| matches!(p, EntryPlace::InTable1(_))),
        (b"123456789", |p| matches!(p, EntryPlace::InTable2(_))),
        (b"1234567890123456", |p| matches!(p, EntryPlace::InTable2(_))),
        (b"12345678901234567", |p| matches!(p, EntryPlace::InTable3(_))),
        (b"aaaaaaaaaaaaaaaaaaaaaaaa", |p| matches!(p, EntryPlace::InTable3(_))),
        (b"aaaaaaaaaaaaaaaaaaaaaaaaa", |p| matches!(p, EntryPlace::InTable4(_))),
    ];
    assert_eq!(keys[5].0.len(), 24);
    assert_eq!(keys[6].0.len(), 25);
    let mut total = 0usize;
    for (i, (k, in_expected_table)) in keys.iter().enumerate() {
        let e = match t.insert_and_entry(k) {
            Ok(e) => e,
            Err(_) => panic!("duplicate"),
        };
        e.write(&mut t, i as u64);
        assert!(in_expected_table(&e.place));
        total += k.len();
    }
    assert_eq!(total, 100);
    assert_eq!(t.unsize_key_size(), Some(100));
    assert_eq!(t.len(), 7);
    for (i, (k, _)) in keys.iter().enumerate() {
        assert_eq!(t.get(k), Some(&(i as u64)));
        let e = t.entry(k).expect("present");
        assert_eq!(e.key(&t).as_slice(), *k);
    }
}

#[test]
fn trailing_nul_collision_avoidance() {
    let mut t: UnsizedHashtable<u64> = UnsizedHashtable::new();
    assert!(insert_written(&mut t, b"ab", 1));
    assert!(insert_written(&mut t, b"ab\x00", 2));
    assert_eq!(t.len(), 2);
    assert_eq!(t.get(b"ab"), Some(&1));
    assert_eq!(t.get(b"ab\x00"), Some(&2));
    let e1 = t.entry(b"ab").expect("present");
    let e2 = t.entry(b"ab\x00").expect("present");
    assert!(matches!(e1.place, EntryPlace::InTable1(_)));
    assert!(matches!(e2.place, EntryPlace::InTable4(_)));
    assert_eq!(e2.key(&t).as_slice(), b"ab\x00");
}

#[test]
fn duplicate_accumulation() {
    let mut t: UnsizedHashtable<u64> = UnsizedHashtable::new();
    for round in 0..5 {
        match t.insert_and_entry(b"key") {
            Ok(e) => {
                assert_eq!(round, 0, "only the first insert is new");
                e.write(&mut t, 0);
            }
            Err(e) => {
                assert!(round > 0);
                let v = *e.get(&t);
                e.write(&mut t, v + 1);
            }
        }
    }
    assert_eq!(t.get(b"key"), Some(&4));
    assert_eq!(t.len(), 1);
}

#[test]
fn duplicate_insert_returns_same_slot() {
    let mut t: UnsizedHashtable<u64> = UnsizedHashtable::new();
    for key in [&b"short"[..], &b"a-key-that-is-very-long-and-lands-in-the-fallback"[..]] {
        let first = match t.insert_and_entry(key) {
            Ok(e) => e,
            Err(_) => panic!("first insert must be new"),
        };
        first.write(&mut t, 10);
        let second = match t.insert_and_entry(key) {
            Ok(_) => panic!("second insert must find the key"),
            Err(e) => e,
        };
        assert_eq!(first.place, second.place);
        assert_eq!(*second.get(&t), 10);
    }
}

struct Lcg(u64);

impl Lcg {
    fn next(&mut self) -> u64 {
        self.0 = self.0.wrapping_mul(6364136223846793005).wrapping_add(1442695040888963407);
        self.0 >> 11
    }
}

fn random_key(rng: &mut Lcg, serial: u64) -> Vec<u8> {
    let len = 1 + (rng.next() % 64) as usize;
    let mut k = Vec::with_capacity(len.max(9));
    // A distinct serial prefix keeps the keys distinct whatever the tail.
    k.extend_from_slice(&serial.to_le_bytes());
    while k.len() < len.max(9) {
        k.push((rng.next() % 256) as u8);
    }
    k
}

#[test]
fn growth_stability() {
    let mut rng = Lcg(0x9e3779b97f4a7c15);
    let mut t: UnsizedHashtable<u64> = UnsizedHashtable::with_capacity(16);
    let mut keys = Vec::new();
    for i in 0..10_000u64 {
        let k = random_key(&mut rng, i);
        let e = match t.insert_and_entry(&k) {
            Ok(e) => e,
            Err(_) => panic!("keys are distinct by construction"),
        };
        e.write(&mut t, i);
        keys.push(k);
    }
    assert_eq!(t.len(), 10_000);
    for (i, k) in keys.iter().enumerate() {
        assert_eq!(t.get(k), Some(&(i as u64)), "round trip after growth");
        let e = t.entry(k).expect("present");
        assert_eq!(e.key(&t).as_slice(), k.as_slice());
    }
}

#[test]
fn clear_and_reuse() {
    let mut rng = Lcg(42);
    let mut t: UnsizedHashtable<u64> = UnsizedHashtable::new();
    let mut keys = Vec::new();
    for i in 0..500u64 {
        let k = random_key(&mut rng, i);
        match t.insert_and_entry(&k) {
            Ok(e) => e.write(&mut t, i),
            Err(_) => panic!("distinct"),
        }
        keys.push(k);
    }
    t.clear();
    assert_eq!(t.len(), 0);
    assert!(t.is_empty());
    assert_eq!(t.unsize_key_size(), Some(0));
    let mut it = t.iter();
    assert!(it.next(&t).is_none());
    assert!(insert_written(&mut t, &keys[0], 99), "cleared keys insert as new");
    assert_eq!(t.get(&keys[0]), Some(&99));
}

#[test]
fn hash_consistency() {
    let keys: [&[u8]; 5] = [
        b"",
        b"abc",
        b"0123456789abcdef0",
        b"a-fallback-key-of-more-than-twenty-four-bytes",
        b"nul-tail\x00",
    ];
    let mut plain: UnsizedHashtable<u64> = UnsizedHashtable::new();
    let mut hashed: UnsizedHashtable<u64> = UnsizedHashtable::new();
    for (i, k) in keys.iter().enumerate() {
        match plain.insert_and_entry(k) {
            Ok(e) => e.write(&mut plain, i as u64),
            Err(_) => panic!("distinct"),
        }
        match hashed.insert_and_entry_with_hash(k, fast_hash(k)) {
            Ok(e) => e.write(&mut hashed, i as u64),
            Err(_) => panic!("distinct"),
        }
    }
    assert_eq!(plain.len(), hashed.len());
    assert_eq!(plain.unsize_key_size(), hashed.unsize_key_size());
    for (i, k) in keys.iter().enumerate() {
        assert_eq!(plain.get(k), Some(&(i as u64)));
        assert_eq!(hashed.get(k), Some(&(i as u64)));
    }
    // Re-inserting with the hash finds the same entries.
    for k in keys.iter() {
        assert!(hashed.insert_and_entry_with_hash(k, fast_hash(k)).is_err());
    }
}

#[test]
fn iteration_complete() {
    let mut t: UnsizedHashtable<u64> = UnsizedHashtable::new();
    let keys: [&[u8]; 6] =
        [b"", b"a", b"123456789", b"12345678901234567", b"a-long-fallback-key-over-24-bytes", b"x\x00"];
    for (i, k) in keys.iter().enumerate() {
        match t.insert_and_entry(k) {
            Ok(e) => e.write(&mut t, i as u64),
            Err(_) => panic!("distinct"),
        }
    }
    let mut seen: Vec<(Vec<u8>, u64)> = Vec::new();
    let mut it = t.iter();
    while let Some(e) = it.next(&t) {
        seen.push((e.key(&t), *e.get(&t)));
    }
    assert_eq!(seen.len(), keys.len(), "exactly one entry per stored key");
    let mut expected: Vec<(Vec<u8>, u64)> =
        keys.iter().enumerate().map(|(i, k)| (k.to_vec(), i as u64)).collect();
    expected.sort();
    seen.sort();
    assert_eq!(seen, expected);
}

#[test]
fn last_write_wins() {
    let mut t: UnsizedHashtable<u64> = UnsizedHashtable::new();
    let e = match t.insert_and_entry(b"k") {
        Ok(e) => e,
        Err(_) => panic!(),
    };
    e.write(&mut t, 1);
    e.write(&mut t, 2);
    assert_eq!(t.get(b"k"), Some(&2));
}

#[test]
fn tail_mode_appends_without_dedup() {
    let mut t: UnsizedHashtable<u64> = UnsizedHashtable::new();
    assert!(insert_written(&mut t, b"before", 0));
    t.enable_tail_array();
    t.enable_tail_array(); // idempotent
    for v in 1..=3u64 {
        match t.insert_and_entry(b"dup") {
            Ok(e) => e.write(&mut t, v),
            Err(_) => panic!("tail inserts are always new"),
        }
    }
    // The empty key still goes to its own table, even in tail mode.
    match t.insert_and_entry(b"") {
        Ok(e) => e.write(&mut t, 9),
        Err(_) => panic!(),
    }
    // Lookups do not consult the tail list.
    assert_eq!(t.get(b"dup"), None);
    assert_eq!(t.get(b""), Some(&9));
    // len counts the sub-tables only; iteration sees tail records too.
    assert_eq!(t.len(), 2);
    let mut n = 0;
    let mut dups = 0;
    let mut it = t.iter();
    while let Some(e) = it.next(&t) {
        n += 1;
        if e.key(&t).as_slice() == b"dup" {
            dups += 1;
        }
    }
    assert_eq!(n, 5);
    assert_eq!(dups, 3);
}

#[test]
fn set_insert_and_merge() {
    let mut a: UnsizedHashtable<()> = UnsizedHashtable::new();
    assert!(a.set_insert(b"x"));
    assert!(!a.set_insert(b"x"));
    assert!(a.set_insert(b"a-rather-long-key-routed-to-the-fallback"));
    assert!(a.set_insert(b""));

    let mut b: UnsizedHashtable<()> = UnsizedHashtable::new();
    assert!(b.set_insert(b"x"));
    assert!(b.set_insert(b"y"));
    assert!(b.set_insert(b"123456789"));

    a.set_merge(&b);
    assert_eq!(a.len(), 5);
    for k in [&b"x"[..], b"y", b"123456789", b"a-rather-long-key-routed-to-the-fallback", b""] {
        assert!(a.entry(k).is_some(), "merged set holds {:?}", k);
    }
    assert!(a.entry(b"z").is_none());
}

#[test]
fn set_merge_skips_tail_records() {
    let mut src: UnsizedHashtable<()> = UnsizedHashtable::new();
    src.set_insert(b"kept");
    src.enable_tail_array();
    src.set_insert(b"tail-only");

    let mut dst: UnsizedHashtable<()> = UnsizedHashtable::new();
    dst.enable_tail_array();
    dst.set_merge(&src);
    // The source's tail record is not merged, and merging inserts into the
    // destination's sub-tables even while its tail mode is on.
    assert!(dst.entry(b"kept").is_some());
    assert!(dst.entry(b"tail-only").is_none());
    assert_eq!(dst.len(), 1);
}

#[test]
fn counters_and_capacity() {
    let mut t: UnsizedHashtable<u64> = UnsizedHashtable::with_capacity(4);
    assert!(t.is_empty());
    assert_eq!(t.capacity(), 17);
    let before = t.bytes_len();
    for i in 0..100u64 {
        let k = format!("a-long-fallback-key-number-{i:03}");
        assert!(insert_written(&mut t, k.as_bytes(), i));
    }
    assert_eq!(t.len(), 100);
    assert!(t.capacity() > 17, "the fallback table grew");
    let loaded = t.bytes_len();
    assert!(loaded > before, "growth is reported");
    assert_eq!(t.unsize_key_size(), Some(100 * 30));
    t.clear();
    assert_eq!(t.len(), 0);
    assert!(t.bytes_len() < loaded, "arena bytes are released");
}

#[test]
fn default_is_empty() {
    let t: UnsizedHashtable<u64> = UnsizedHashtable::default();
    assert!(t.is_empty());
    assert_eq!(t.len(), 0);
}

#[test]
fn insert_borrowing_behaves_like_insert() {
    let mut t: UnsizedHashtable<u64> = UnsizedHashtable::new();
    match t.insert_and_entry_borrowing(b"borrowed") {
        Ok(e) => e.write(&mut t, 5),
        Err(_) => panic!(),
    }
    assert!(t.insert_borrowing(b"borrowed").is_err());
    assert!(t.insert(b"plain").is_ok());
    assert_eq!(t.get(b"borrowed"), Some(&5));
}

#[test]
fn fast_hash_is_a_function_of_the_bytes() {
    assert_eq!(fast_hash(b"abc"), fast_hash(b"abc"));
    assert_ne!(fast_hash(b"abc"), fast_hash(b"abd"));
    assert_ne!(fast_hash(b""), fast_hash(b"\x00"));
}
