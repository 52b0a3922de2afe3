use mouscache::CacheError;
use mouscache::CacheObject;
use mouscache::Expiration;
use mouscache::MemoryCache;
use mouscache::gen_key;

fn obj(model_name: &str, pairs: &[(&str, &str)], ttl: Option<usize>) -> CacheObject {
    CacheObject {
        model_name: model_name.to_string(),
        fields: pairs.iter().map(|p| (p.0.to_string(), p.1.to_string())).collect(),
        default_ttl: ttl,
    }
}

fn sorted(mut v: Vec<String>) -> Vec<String> {
    v.sort();
    v
}

#[test]
fn gen_key_namespaces() {
    assert_eq!(gen_key("user", "k1"), "user:k1");
    assert_eq!(gen_key("", ""), ":");
}

#[test]
fn expiration_explicit_clock() {
    let e = Expiration::new_at(1000, 5);
    assert_eq!(e.insertion_time, 1000);
    assert_eq!(e.ttl_secs, 5);
    assert!(!e.is_expired_at(1000));
    assert!(!e.is_expired_at(1004));
    assert!(e.is_expired_at(1005));
    assert!(e.is_expired_at(2000));
    assert!(!e.is_expired_at(999));
}

#[test]
fn expiration_engine_clock() {
    let e = Expiration::new(3600);
    assert_eq!(e.ttl_secs, 3600);
    let zero = Expiration::new(0);
    assert_eq!(zero.ttl_secs, 0);
    // Expired at every clock value: inserted at the epoch with no grace.
    let always = Expiration::new_at(0, 0);
    assert!(always.is_expired());
    // Expired at no clock value: insertion time plus grace overflows.
    let never = Expiration::new_at(u64::MAX, u64::MAX);
    assert!(!never.is_expired());
}

#[test]
fn round_trip_before_ttl() {
    let mut c = MemoryCache::new();
    let o = obj("user", &[("name", "alice"), ("age", "30")], None);
    assert!(c.insert("u1", o).is_ok());
    let got = c.get("user", "u1").unwrap().expect("entry must be present");
    assert_eq!(got.model_name, "user");
    assert_eq!(got.fields.len(), 2);
    assert_eq!(got.fields[0], ("name".to_string(), "alice".to_string()));
    assert_eq!(got.fields[1], ("age".to_string(), "30".to_string()));
    assert_eq!(got.default_ttl, None);
}

#[test]
fn ttl_expiry_and_presence_quirk() {
    let mut c = MemoryCache::new();
    let o = obj("user", &[("name", "bob")], None);
    assert!(c.insert_with_at("k", o, Some(1), 1000).is_ok());
    // Not yet elapsed: the object is readable.
    assert!(c.get_at("user", "k", 1000).unwrap().is_some());
    // At least one second later the entry is logically absent...
    assert!(c.contains_key("user", "k").unwrap());
    assert_eq!(c.get_at("user", "k", 1001).unwrap().map(|o| o.model_name), None);
    // ...and the lazy read removed it.
    assert!(!c.contains_key("user", "k").unwrap());
}

#[test]
fn ttl_zero_expires_immediately_with_engine_clock() {
    let mut c = MemoryCache::new();
    let o = obj("user", &[("name", "eve")], None);
    assert!(c.insert_with("k", o, Some(0)).is_ok());
    // The quirk: raw presence is reported without an expiration check.
    assert!(c.contains_key("user", "k").unwrap());
    assert!(c.get("user", "k").unwrap().is_none());
    assert!(!c.contains_key("user", "k").unwrap());
}

#[test]
fn insert_uses_default_ttl() {
    let mut c = MemoryCache::new();
    let o = obj("sess", &[("tok", "t")], Some(0));
    assert!(c.insert("s1", o).is_ok());
    assert!(c.get("sess", "s1").unwrap().is_none());
    let o2 = obj("sess", &[("tok", "t")], None);
    assert!(c.insert("s2", o2).is_ok());
    assert!(c.get("sess", "s2").unwrap().is_some());
}

#[test]
fn reinsert_overwrites_and_resets_expiration() {
    let mut c = MemoryCache::new();
    assert!(c.insert_with_at("k", obj("m", &[("v", "1")], None), Some(10), 1000).is_ok());
    assert!(c.insert_with_at("k", obj("m", &[("v", "2")], None), None, 2000).is_ok());
    let got = c.get_at("m", "k", 5000).unwrap().unwrap();
    assert_eq!(got.fields[0].1, "2");
}

#[test]
fn remove_is_unconditional() {
    let mut c = MemoryCache::new();
    assert!(c.remove("user", "missing").is_ok());
    assert!(c.insert("u1", obj("user", &[("a", "b")], None)).is_ok());
    assert!(c.remove("user", "u1").is_ok());
    assert!(!c.contains_key("user", "u1").unwrap());
}

#[test]
fn type_mismatch_fails_loudly() {
    let mut c = MemoryCache::new();
    // "a:b" + ":" + "c" collides with "a" + ":" + "b:c".
    assert!(c.insert("c", obj("a:b", &[("f", "v")], None)).is_ok());
    assert!(matches!(c.get("a", "b:c"), Err(CacheError::TypeMismatch)));
    // The loud failure leaves the entry in place.
    assert!(c.contains_key("a:b", "c").unwrap());
    assert!(c.get("a:b", "c").unwrap().is_some());
}

#[test]
fn hash_set_and_get() {
    let mut c = MemoryCache::new();
    assert_eq!(c.hash_set("h", "f1", "v1"), Ok(true));
    assert_eq!(c.hash_get("h", "f1").unwrap(), Some("v1".to_string()));
    assert_eq!(c.hash_get("h", "f2").unwrap(), None);
    assert_eq!(c.hash_get("missing", "f1").unwrap(), None);
}

#[test]
fn hash_multiple_get_keeps_length_and_order() {
    let mut c = MemoryCache::new();
    assert_eq!(c.hash_set("h", "f1", "v1"), Ok(true));
    let got = c.hash_multiple_get("h", &["f1", "f2"]).unwrap();
    assert_eq!(got, vec![Some("v1".to_string()), None]);
    let absent = c.hash_multiple_get("nope", &["f1", "f2"]).unwrap();
    assert_eq!(absent, vec![None, None]);
}

#[test]
fn hash_set_if_not_exists_guards_present_fields() {
    let mut c = MemoryCache::new();
    assert_eq!(c.hash_set_if_not_exists("h", "f", "first"), Ok(true));
    assert_eq!(c.hash_set_if_not_exists("h", "f", "second"), Ok(false));
    assert_eq!(c.hash_get("h", "f").unwrap(), Some("first".to_string()));
}

#[test]
fn hash_multiple_set_writes_all_pairs() {
    let mut c = MemoryCache::new();
    let pairs = vec![
        ("a".to_string(), "1".to_string()),
        ("b".to_string(), "2".to_string()),
        ("a".to_string(), "3".to_string()),
    ];
    assert_eq!(c.hash_multiple_set("h", &pairs), Ok(true));
    // A later pair with the same field overwrites the earlier one.
    assert_eq!(c.hash_get("h", "a").unwrap(), Some("3".to_string()));
    assert_eq!(c.hash_get("h", "b").unwrap(), Some("2".to_string()));
    assert_eq!(c.hash_len("h").unwrap(), 2);
}

#[test]
fn hash_delete_ignores_missing() {
    let mut c = MemoryCache::new();
    assert_eq!(c.hash_delete("missing", &["f"]), Ok(true));
    assert_eq!(c.hash_set("h", "f1", "v1"), Ok(true));
    assert_eq!(c.hash_set("h", "f2", "v2"), Ok(true));
    assert_eq!(c.hash_delete("h", &["f1", "nope"]), Ok(true));
    assert_eq!(c.hash_get("h", "f1").unwrap(), None);
    assert_eq!(c.hash_get("h", "f2").unwrap(), Some("v2".to_string()));
    assert_eq!(c.hash_len("h").unwrap(), 1);
    // Emptying a container does not destroy it.
    assert_eq!(c.hash_delete("h", &["f2"]), Ok(true));
    assert_eq!(c.hash_len("h").unwrap(), 0);
    assert_eq!(c.hash_exists("h", "f2"), Ok(false));
}

#[test]
fn hash_snapshots() {
    let mut c = MemoryCache::new();
    assert_eq!(c.hash_keys("h").unwrap(), Vec::<String>::new());
    assert_eq!(c.hash_values("h").unwrap(), Vec::<String>::new());
    assert_eq!(c.hash_len("h").unwrap(), 0);
    assert_eq!(c.hash_set("h", "f1", "v1"), Ok(true));
    assert_eq!(c.hash_set("h", "f2", "v2"), Ok(true));
    assert_eq!(sorted(c.hash_keys("h").unwrap()), vec!["f1".to_string(), "f2".to_string()]);
    assert_eq!(sorted(c.hash_values("h").unwrap()), vec!["v1".to_string(), "v2".to_string()]);
    assert_eq!(c.hash_len("h").unwrap(), 2);
    assert_eq!(c.hash_exists("h", "f1"), Ok(true));
}

#[test]
fn hash_get_u64_parses_and_reports_errors() {
    let mut c = MemoryCache::new();
    assert_eq!(c.hash_set("h", "n", "123"), Ok(true));
    assert_eq!(c.hash_set("h", "big", "18446744073709551615"), Ok(true));
    assert_eq!(c.hash_set("h", "huge", "18446744073709551616"), Ok(true));
    assert_eq!(c.hash_set("h", "bad", "12a"), Ok(true));
    assert_eq!(c.hash_set("h", "empty", ""), Ok(true));
    assert_eq!(c.hash_get_u64("h", "n"), Ok(Some(123)));
    assert_eq!(c.hash_get_u64("h", "big"), Ok(Some(u64::MAX)));
    assert_eq!(c.hash_get_u64("h", "huge"), Err(CacheError::Parse));
    assert_eq!(c.hash_get_u64("h", "bad"), Err(CacheError::Parse));
    assert_eq!(c.hash_get_u64("h", "empty"), Err(CacheError::Parse));
    assert_eq!(c.hash_get_u64("h", "absent"), Ok(None));
    assert_eq!(c.hash_get_u64("nope", "n"), Ok(None));
}

#[test]
fn hash_get_i64_parses_and_reports_errors() {
    let mut c = MemoryCache::new();
    assert_eq!(c.hash_set("h", "n", "-42"), Ok(true));
    assert_eq!(c.hash_set("h", "min", "-9223372036854775808"), Ok(true));
    assert_eq!(c.hash_set("h", "max", "9223372036854775807"), Ok(true));
    assert_eq!(c.hash_set("h", "over", "9223372036854775808"), Ok(true));
    assert_eq!(c.hash_set("h", "bad", "--1"), Ok(true));
    assert_eq!(c.hash_get_i64("h", "n"), Ok(Some(-42)));
    assert_eq!(c.hash_get_i64("h", "min"), Ok(Some(i64::MIN)));
    assert_eq!(c.hash_get_i64("h", "max"), Ok(Some(i64::MAX)));
    assert_eq!(c.hash_get_i64("h", "over"), Err(CacheError::Parse));
    assert_eq!(c.hash_get_i64("h", "bad"), Err(CacheError::Parse));
    assert_eq!(c.hash_get_i64("h", "absent"), Ok(None));
    assert_eq!(c.hash_get_i64("nope", "n"), Ok(None));
}

#[test]
fn hash_and_object_views_share_a_namespace() {
    let mut c = MemoryCache::new();
    let o = obj("user", &[("name", "carol")], None);
    assert_eq!(c.hash_set_all("u1", o), Ok(true));
    let got = c.hash_get_all("user", "u1").unwrap().unwrap();
    assert_eq!(got.fields[0].1, "carol");
    let same = c.get("user", "u1").unwrap().unwrap();
    assert_eq!(same.fields[0].1, "carol");
}

#[test]
fn ensure_exists_is_idempotent() {
    let mut c = MemoryCache::new();
    assert!(c.ensure_hash_exists("h").is_ok());
    assert!(c.ensure_hash_exists("h").is_ok());
    assert_eq!(c.hash_len("h").unwrap(), 0);
    assert!(c.ensure_set_exists("s").is_ok());
    assert!(c.ensure_set_exists("s").is_ok());
    assert_eq!(c.set_card("s").unwrap(), 0);
}

#[test]
fn set_add_collapses_duplicates() {
    let mut c = MemoryCache::new();
    assert_eq!(c.set_add("a", &["1", "2", "2", "3"]), Ok(true));
    assert_eq!(c.set_card("a").unwrap(), 3);
    assert_eq!(c.set_ismember("a", "2"), Ok(true));
    assert_eq!(c.set_ismember("a", "4"), Ok(false));
    assert_eq!(c.set_ismember("missing", "1"), Ok(false));
    assert_eq!(c.set_card("missing").unwrap(), 0);
}

#[test]
fn set_members_snapshot() {
    let mut c = MemoryCache::new();
    assert_eq!(c.set_members("missing").unwrap(), Vec::<String>::new());
    assert_eq!(c.set_add("a", &["x", "y"]), Ok(true));
    assert_eq!(sorted(c.set_members("a").unwrap()), vec!["x".to_string(), "y".to_string()]);
}

#[test]
fn set_rem_reports_presence() {
    let mut c = MemoryCache::new();
    assert_eq!(c.set_rem("missing", "x"), Ok(false));
    assert_eq!(c.set_add("a", &["x"]), Ok(true));
    assert_eq!(c.set_rem("a", "y"), Ok(false));
    assert_eq!(c.set_rem("a", "x"), Ok(true));
    assert_eq!(c.set_rem("a", "x"), Ok(false));
    assert_eq!(c.set_card("a").unwrap(), 0);
}

#[test]
fn set_algebra_over_two_sets() {
    let mut c = MemoryCache::new();
    assert_eq!(c.set_add("a", &["1", "2", "3"]), Ok(true));
    assert_eq!(c.set_add("b", &["2", "3", "4"]), Ok(true));
    assert_eq!(
        sorted(c.set_inter(&["a", "b"]).unwrap()),
        vec!["2".to_string(), "3".to_string()]
    );
    assert_eq!(sorted(c.set_diff(&["a", "b"]).unwrap()), vec!["1".to_string()]);
    assert_eq!(
        sorted(c.set_union(&["a", "b"]).unwrap()),
        vec!["1".to_string(), "2".to_string(), "3".to_string(), "4".to_string()]
    );
}

#[test]
fn set_algebra_is_insertion_order_independent() {
    let mut c1 = MemoryCache::new();
    assert_eq!(c1.set_add("a", &["1", "2", "3"]), Ok(true));
    assert_eq!(c1.set_add("b", &["2", "3", "4"]), Ok(true));
    let mut c2 = MemoryCache::new();
    assert_eq!(c2.set_add("a", &["3", "1", "2"]), Ok(true));
    assert_eq!(c2.set_add("b", &["4", "3", "2"]), Ok(true));
    assert_eq!(
        sorted(c1.set_inter(&["a", "b"]).unwrap()),
        sorted(c2.set_inter(&["a", "b"]).unwrap())
    );
    assert_eq!(
        sorted(c1.set_diff(&["a", "b"]).unwrap()),
        sorted(c2.set_diff(&["a", "b"]).unwrap())
    );
    assert_eq!(
        sorted(c1.set_union(&["a", "b"]).unwrap()),
        sorted(c2.set_union(&["a", "b"]).unwrap())
    );
}

#[test]
fn set_algebra_skips_missing_containers() {
    let mut c = MemoryCache::new();
    assert_eq!(c.set_add("a", &["1", "2"]), Ok(true));
    // A missing key is skipped, not treated as an empty set.
    assert_eq!(
        sorted(c.set_inter(&["missing", "a"]).unwrap()),
        vec!["1".to_string(), "2".to_string()]
    );
    assert_eq!(
        sorted(c.set_diff(&["a", "missing"]).unwrap()),
        vec!["1".to_string(), "2".to_string()]
    );
    // No key resolves: the result is empty.
    assert_eq!(c.set_union(&["m1", "m2"]).unwrap(), Vec::<String>::new());
}

#[test]
fn move_member_requires_existing_destination() {
    let mut c = MemoryCache::new();
    assert_eq!(c.set_add("a", &["1", "2", "3"]), Ok(true));
    // The destination does not exist: failure, and the source is unchanged.
    assert_eq!(c.set_move("a", "b", "1"), Ok(false));
    assert_eq!(c.set_card("a").unwrap(), 3);
    assert_eq!(c.set_ismember("a", "1"), Ok(true));
    assert_eq!(c.set_card("b").unwrap(), 0);
    // With an existing destination the member moves.
    assert_eq!(c.set_add("b", &["9"]), Ok(true));
    assert_eq!(c.set_move("a", "b", "1"), Ok(true));
    assert_eq!(c.set_ismember("a", "1"), Ok(false));
    assert_eq!(c.set_ismember("b", "1"), Ok(true));
    assert_eq!(c.set_card("a").unwrap(), 2);
    assert_eq!(c.set_card("b").unwrap(), 2);
}

#[test]
fn move_member_requires_membership() {
    let mut c = MemoryCache::new();
    assert_eq!(c.set_add("a", &["1"]), Ok(true));
    assert_eq!(c.set_add("b", &["2"]), Ok(true));
    assert_eq!(c.set_move("a", "b", "7"), Ok(false));
    assert_eq!(c.set_card("a").unwrap(), 1);
    assert_eq!(c.set_card("b").unwrap(), 1);
    assert_eq!(c.set_move("missing", "b", "7"), Ok(false));
}

#[test]
fn store_variants_overwrite_destination_and_report_cardinality() {
    let mut c = MemoryCache::new();
    assert_eq!(c.set_add("a", &["1", "2", "3"]), Ok(true));
    assert_eq!(c.set_add("b", &["2", "3", "4"]), Ok(true));
    assert_eq!(c.set_add("dst", &["stale"]), Ok(true));
    assert_eq!(c.set_unionstore("dst", &["a", "b"]), Ok(4));
    assert_eq!(
        sorted(c.set_members("dst").unwrap()),
        vec!["1".to_string(), "2".to_string(), "3".to_string(), "4".to_string()]
    );
    assert_eq!(c.set_interstore("i", &["a", "b"]), Ok(2));
    assert_eq!(sorted(c.set_members("i").unwrap()), vec!["2".to_string(), "3".to_string()]);
    assert_eq!(c.set_diffstore("d", &["a", "b"]), Ok(1));
    assert_eq!(c.set_members("d").unwrap(), vec!["1".to_string()]);
}

#[test]
fn store_variant_on_absent_sources_stores_an_empty_result() {
    let mut c = MemoryCache::new();
    // "Empty result, successfully stored" is distinguished from failure:
    // the call succeeds with cardinality zero and the destination exists.
    assert_eq!(c.set_unionstore("dst", &["m1", "m2"]), Ok(0));
    assert_eq!(c.set_card("dst").unwrap(), 0);
    assert_eq!(c.set_members("dst").unwrap(), Vec::<String>::new());
}

#[test]
fn sequential_add_remove_interleavings_agree() {
    // Disjoint member sets: every interleaving of the operations leaves the
    // same final container, so no update is lost.
    let mut c1 = MemoryCache::new();
    assert_eq!(c1.set_add("k", &["a1", "a2"]), Ok(true));
    assert_eq!(c1.set_add("k", &["b1"]), Ok(true));
    assert_eq!(c1.set_rem("k", "a1"), Ok(true));
    let mut c2 = MemoryCache::new();
    assert_eq!(c2.set_add("k", &["b1"]), Ok(true));
    assert_eq!(c2.set_rem("k", "a1"), Ok(false));
    assert_eq!(c2.set_add("k", &["a1", "a2"]), Ok(true));
    assert_eq!(c2.set_rem("k", "a1"), Ok(true));
    assert_eq!(sorted(c1.set_members("k").unwrap()), sorted(c2.set_members("k").unwrap()));
    assert_eq!(c1.set_card("k").unwrap(), 2);
}
