use mouscache::find_colon_from;
use mouscache::gen_key;
use mouscache::parse_i64;
use mouscache::parse_u64;
use mouscache::pick_first_marked;
use mouscache::redis_key_create;
use mouscache::redis_url;
use mouscache::split_host;
use mouscache::CacheError;

#[test]
fn parse_u64_accepts_decimal_digits() {
    assert_eq!(parse_u64("0"), Ok(0));
    assert_eq!(parse_u64("123"), Ok(123));
    assert_eq!(parse_u64("18446744073709551615"), Ok(u64::MAX));
}

#[test]
fn parse_u64_rejects_everything_else() {
    assert_eq!(parse_u64(""), Err(CacheError::Parse));
    assert_eq!(parse_u64("12a"), Err(CacheError::Parse));
    assert_eq!(parse_u64("-1"), Err(CacheError::Parse));
    assert_eq!(parse_u64(" 1"), Err(CacheError::Parse));
    assert_eq!(parse_u64("18446744073709551616"), Err(CacheError::Parse));
}

#[test]
fn parse_i64_accepts_signed_decimals() {
    assert_eq!(parse_i64("0"), Ok(0));
    assert_eq!(parse_i64("42"), Ok(42));
    assert_eq!(parse_i64("-1"), Ok(-1));
    assert_eq!(parse_i64("9223372036854775807"), Ok(i64::MAX));
    assert_eq!(parse_i64("-9223372036854775808"), Ok(i64::MIN));
}

#[test]
fn parse_i64_rejects_everything_else() {
    assert_eq!(parse_i64(""), Err(CacheError::Parse));
    assert_eq!(parse_i64("-"), Err(CacheError::Parse));
    assert_eq!(parse_i64("+1"), Err(CacheError::Parse));
    assert_eq!(parse_i64("1-2"), Err(CacheError::Parse));
    assert_eq!(parse_i64("1.5"), Err(CacheError::Parse));
    assert_eq!(parse_i64("9223372036854775808"), Err(CacheError::Parse));
    assert_eq!(parse_i64("-9223372036854775809"), Err(CacheError::Parse));
}

#[test]
fn remote_key_matches_engine_key() {
    assert_eq!(redis_key_create("user", "k1"), "user:k1");
    assert_eq!(redis_key_create("user", "k1"), gen_key("user", "k1"));
}

#[test]
fn split_host_variants() {
    assert_eq!(split_host("localhost"), ("localhost".to_string(), None));
    assert_eq!(
        split_host("example.com:6379"),
        ("example.com".to_string(), Some("6379".to_string()))
    );
    assert_eq!(split_host("h:1:2"), ("h".to_string(), Some("1".to_string())));
    assert_eq!(split_host(":7"), ("".to_string(), Some("7".to_string())));
}

#[test]
fn find_colon_from_scans_forward() {
    assert_eq!(find_colon_from("a:b:c", 0), Some(1));
    assert_eq!(find_colon_from("a:b:c", 2), Some(3));
    assert_eq!(find_colon_from("a:b:c", 4), None);
    assert_eq!(find_colon_from("abc", 0), None);
}

#[test]
fn redis_url_shapes() {
    assert_eq!(redis_url("10.0.0.1", None, None), "redis://10.0.0.1");
    assert_eq!(redis_url("10.0.0.1", Some("6379"), None), "redis://10.0.0.1:6379");
    assert_eq!(redis_url("10.0.0.1", None, Some("pw")), "redis://:pw@10.0.0.1");
    assert_eq!(
        redis_url("10.0.0.1", Some("6379"), Some("pw")),
        "redis://:pw@10.0.0.1:6379"
    );
}

#[test]
fn pick_first_marked_takes_the_first_match() {
    let addrs = vec![
        (false, "fe80::1".to_string()),
        (true, "10.0.0.1".to_string()),
        (true, "10.0.0.2".to_string()),
    ];
    assert_eq!(pick_first_marked(&addrs), Some("10.0.0.1".to_string()));
    let none: Vec<(bool, String)> = vec![(false, "fe80::1".to_string())];
    assert_eq!(pick_first_marked(&none), None);
    assert_eq!(pick_first_marked(&[]), None);
}
