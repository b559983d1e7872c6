use borrow_complex_key::compare::{key_cmp, key_eq, key_hash_value, key_partial_cmp};
use borrow_complex_key::key::{BorrowedKey, Key, OwnedKey};
use borrow_complex_key::key_set::KeySet;
use std::cmp::Ordering;
use std::collections::hash_map::DefaultHasher;
use std::collections::HashSet;
use std::hash::{Hash, Hasher};

fn owned(s: &str, bytes: &[u8]) -> OwnedKey {
    OwnedKey::new(s.to_string(), bytes.to_vec())
}

#[test]
fn basic() {
    let mut hash_set: HashSet<String> = HashSet::new();
    hash_set.insert("example-string".to_string());

    let string_key: String = "example-string".to_string();
    assert!(hash_set.contains(&string_key));

    let str_key: &str = "example-string";
    assert!(hash_set.contains(str_key));
}

#[test]
fn complex1() {
    let mut set = KeySet::new();
    set.insert(OwnedKey {
        s: "foo".to_string(),
        bytes: b"abc".to_vec(),
    });

    let _borrowed_key = BorrowedKey {
        s: "foo",
        bytes: b"abc",
    };
}

#[test]
fn complex2() {
    let mut set = KeySet::new();
    set.insert(OwnedKey {
        s: "foo".to_string(),
        bytes: b"abc".to_vec(),
    });

    let borrowed_key = BorrowedKey {
        s: "foo",
        bytes: b"abc",
    };
    assert!(set.contains(&borrowed_key));
}

#[test]
fn lookup_misses_on_shorter_bytes() {
    let mut set = KeySet::new();
    assert!(set.insert(owned("foo", &[0x61, 0x62, 0x63])));
    assert!(set.contains(&BorrowedKey::new("foo", &[0x61, 0x62, 0x63])));
    assert!(!set.contains(&BorrowedKey::new("foo", &[0x61, 0x62])));
}

#[test]
fn lookup_misses_every_differing_key() {
    let mut set = KeySet::new();
    set.insert(owned("foo", b"abc"));
    set.insert(owned("bar", b""));
    set.insert(owned("", b"abc"));
    assert!(!set.contains(&BorrowedKey::new("foo", b"abd")));
    assert!(!set.contains(&BorrowedKey::new("fo", b"abc")));
    assert!(!set.contains(&BorrowedKey::new("", b"")));
    assert!(!set.contains(&BorrowedKey::new("bar", b"\0")));
    assert!(set.contains(&BorrowedKey::new("bar", b"")));
    assert!(set.contains(&BorrowedKey::new("", b"abc")));
    assert!(set.contains(&owned("foo", b"abc")));
}

#[test]
fn empty_set_holds_nothing() {
    let set = KeySet::new();
    assert!(!set.contains(&BorrowedKey::new("", b"")));
    assert!(!set.contains(&owned("foo", b"abc")));
}

#[test]
fn inserting_an_equal_key_again_changes_nothing() {
    let mut set = KeySet::new();
    assert!(set.insert(owned("k", &[1, 2])));
    assert!(!set.insert(owned("k", &[1, 2])));
    assert!(set.insert(owned("k", &[1])));
    assert!(set.contains(&BorrowedKey::new("k", &[1, 2])));
    assert!(set.contains(&BorrowedKey::new("k", &[1])));
}

#[test]
fn inserts_in_any_order_are_all_found() {
    let mut set = KeySet::new();
    let texts = ["m", "a", "z", "b", "y", "", "mm"];
    for (i, t) in texts.iter().enumerate() {
        let bytes = vec![i as u8];
        set.insert(OwnedKey::new(t.to_string(), bytes));
    }
    for (i, t) in texts.iter().enumerate() {
        let bytes = [i as u8];
        assert!(set.contains(&BorrowedKey::new(t, &bytes)));
        let other = [i as u8 + 1];
        assert!(!set.contains(&BorrowedKey::new(t, &other)));
    }
}

#[test]
fn text_decides_before_bytes() {
    let a = owned("a", &[]);
    let b = owned("b", &[]);
    assert!(a < b);
    assert_eq!(a.cmp(&b), Ordering::Less);
    assert_eq!(key_cmp(&a, &b), Ordering::Less);
    assert_eq!(key_cmp(&a.key(), &b.key()), Ordering::Less);
    assert_eq!(key_cmp(&owned("a", &[9, 9]), &owned("b", &[])), Ordering::Less);
}

#[test]
fn shorter_bytes_come_first_on_equal_text() {
    let a = owned("a", &[1]);
    let b = owned("a", &[1, 0]);
    assert!(a < b);
    assert_eq!(a.cmp(&b), Ordering::Less);
    assert_eq!(key_cmp(&a, &b), Ordering::Less);
    assert_eq!(key_cmp(&b, &a), Ordering::Greater);
    assert_eq!(key_partial_cmp(&a.key(), &b.key()), Some(Ordering::Less));
}

#[test]
fn texts_order_by_their_utf8_bytes() {
    let e = owned("\u{e9}", &[]);
    let z = owned("z", &[]);
    assert_eq!(key_cmp(&z, &e), Ordering::Less);
    assert_eq!(z.cmp(&e), Ordering::Less);
    assert_eq!(key_cmp(&owned("", &[]), &owned("", &[])), Ordering::Equal);
}

#[test]
fn mixed_shapes_compare_through_the_projection() {
    let o = owned("foo", b"abc");
    let b = BorrowedKey::new("foo", b"abc");
    assert!(key_eq(&o, &b));
    assert_eq!(key_cmp(&o, &b), Ordering::Equal);
    assert!(!key_eq(&o, &BorrowedKey::new("foo", b"ab")));
    assert_eq!(key_cmp(&o, &BorrowedKey::new("foo", b"ab")), Ordering::Greater);
    assert_eq!(o.key(), b);
}

#[test]
fn owned_and_borrowed_hash_alike() {
    let o = owned("foo", b"abc");
    let b = BorrowedKey::new("foo", b"abc");
    assert_eq!(key_hash_value(&o), key_hash_value(&b));
    assert_eq!(key_hash_value(&o), key_hash_value(&o.key()));
    assert_ne!(key_hash_value(&owned("a", b"")), key_hash_value(&owned("", b"a")));
}

#[test]
fn view_hash_matches_the_derived_hash() {
    let o = owned("foo", b"abc");
    let probe = BorrowedKey::new("foo", b"abc");
    let mut hasher = DefaultHasher::new();
    o.hash(&mut hasher);
    let derived = hasher.finish();
    assert_eq!(derived, key_hash_value(&o.key()));
    assert_eq!(derived, key_hash_value(&probe));
    let mut hasher = DefaultHasher::new();
    probe.hash(&mut hasher);
    assert_eq!(hasher.finish(), key_hash_value(&probe));
    let empty = owned("", b"");
    let mut hasher = DefaultHasher::new();
    empty.hash(&mut hasher);
    assert_eq!(hasher.finish(), key_hash_value(&empty));
}
