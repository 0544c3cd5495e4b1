use rvm::rvm_htab::RvmHtabCtx;

#[test]
fn empty_table_finds_nothing() {
    let t = RvmHtabCtx::new();
    assert_eq!(t.rvm_htab_find("x"), None);
    assert_eq!(t.rvm_htab_find(""), None);
    assert_eq!(t.rvm_htab_find_ref("x"), None);
    assert_eq!(t.rvm_htab_len(), 0);
}

#[test]
fn inserted_keys_are_found() {
    let mut t = RvmHtabCtx::new();
    t.rvm_htab_add("alpha", 1, "one");
    t.rvm_htab_add("beta", -2, "");
    t.rvm_htab_add("", 3, "empty key");
    assert_eq!(t.rvm_htab_find("alpha"), Some(1));
    assert_eq!(t.rvm_htab_find("beta"), Some(-2));
    assert_eq!(t.rvm_htab_find(""), Some(3));
    assert_eq!(t.rvm_htab_find_ref("alpha"), Some("one".to_string()));
    assert_eq!(t.rvm_htab_find_ref("beta"), Some(String::new()));
    assert_eq!(t.rvm_htab_find_ref(""), Some("empty key".to_string()));
    assert_eq!(t.rvm_htab_find("gamma"), None);
    assert_eq!(t.rvm_htab_find("alph"), None);
    assert_eq!(t.rvm_htab_find("alphaa"), None);
    assert_eq!(t.rvm_htab_len(), 3);
}

#[test]
fn a_key_inserted_twice_keeps_its_first_symbol() {
    let mut t = RvmHtabCtx::new();
    t.rvm_htab_add("k", 1, "first");
    t.rvm_htab_add("k", 2, "second");
    assert_eq!(t.rvm_htab_find("k"), Some(1));
    assert_eq!(t.rvm_htab_find_ref("k"), Some("first".to_string()));
    assert_eq!(t.rvm_htab_len(), 2);
}

#[test]
fn rehashing_loses_nothing() {
    // a new table has 4096 buckets and is rebuilt past 2867 entries,
    // then again and again as it grows
    let mut t = RvmHtabCtx::new();
    let n = 20000;
    for i in 0..n {
        t.rvm_htab_add(&format!("key{}", i), i, &format!("text{}", i));
    }
    assert_eq!(t.rvm_htab_len(), n as u32);
    for i in 0..n {
        assert_eq!(t.rvm_htab_find(&format!("key{}", i)), Some(i));
        assert_eq!(t.rvm_htab_find_ref(&format!("key{}", i)), Some(format!("text{}", i)));
    }
    assert_eq!(t.rvm_htab_find(&format!("key{}", n)), None);
    assert_eq!(t.rvm_htab_find("key"), None);
}

#[test]
fn rehashing_keeps_the_first_symbol_of_a_key() {
    let mut t = RvmHtabCtx::new();
    t.rvm_htab_add("dup", 10, "a");
    t.rvm_htab_add("dup", 20, "b");
    for i in 0..5000 {
        t.rvm_htab_add(&format!("filler{}", i), i, "");
    }
    t.rvm_htab_add("dup", 30, "c");
    for i in 5000..12000 {
        t.rvm_htab_add(&format!("filler{}", i), i, "");
    }
    assert_eq!(t.rvm_htab_find("dup"), Some(10));
    assert_eq!(t.rvm_htab_find_ref("dup"), Some("a".to_string()));
}

#[test]
fn keys_that_differ_in_order_are_different_keys() {
    let mut t = RvmHtabCtx::new();
    t.rvm_htab_add("ab", 1, "");
    t.rvm_htab_add("ba", 2, "");
    t.rvm_htab_add("é", 3, "");
    t.rvm_htab_add("e\u{301}", 4, "");
    assert_eq!(t.rvm_htab_find("ab"), Some(1));
    assert_eq!(t.rvm_htab_find("ba"), Some(2));
    assert_eq!(t.rvm_htab_find("é"), Some(3));
    assert_eq!(t.rvm_htab_find("e\u{301}"), Some(4));
}

#[test]
fn the_table_grows_past_seven_entries_to_ten_buckets() {
    let mut t = RvmHtabCtx::new();
    assert_eq!(t.rvm_htab_size(), 4096);
    // 2867 * 10 <= 4096 * 7 < 2868 * 10
    for i in 0..2867 {
        t.rvm_htab_add(&format!("k{}", i), i, "");
    }
    assert_eq!(t.rvm_htab_size(), 4096);
    t.rvm_htab_add("one more", 0, "");
    assert_eq!(t.rvm_htab_len(), 2868);
    assert_eq!(t.rvm_htab_size(), 2 * 2868);
    // 4015 * 10 <= 5736 * 7 < 4016 * 10
    for i in 2868..4015 {
        t.rvm_htab_add(&format!("k{}", i), i, "");
    }
    assert_eq!(t.rvm_htab_size(), 2 * 2868);
    t.rvm_htab_add("and another", 0, "");
    assert_eq!(t.rvm_htab_size(), 2 * 4016);
    for i in 0..2867 {
        assert_eq!(t.rvm_htab_find(&format!("k{}", i)), Some(i));
    }
    assert_eq!(t.rvm_htab_find("one more"), Some(0));
}

#[test]
fn rehashing_by_hand_keeps_every_entry() {
    let mut t = RvmHtabCtx::new();
    for i in 0..500 {
        t.rvm_htab_add(&format!("key{}", i % 400), i, &format!("text{}", i));
    }
    for size in [1, 2, 7, 4096, 100_000, 3] {
        t.htab_rehash(size);
        assert_eq!(t.rvm_htab_size(), size);
        assert_eq!(t.rvm_htab_len(), 500);
        for i in 0..400 {
            // a key inserted twice keeps the symbol that came first
            assert_eq!(t.rvm_htab_find(&format!("key{}", i)), Some(i));
            assert_eq!(t.rvm_htab_find_ref(&format!("key{}", i)), Some(format!("text{}", i)));
        }
        assert_eq!(t.rvm_htab_find("key400"), None);
    }
    // the next insertion rebuilds the table by the rule of seven to ten
    t.rvm_htab_add("more", 1, "");
    assert_eq!(t.rvm_htab_size(), 2 * 501);
    assert_eq!(t.rvm_htab_find("key17"), Some(17));
}
