use testament::cache::{cache_content, cached_names, fingerprint_of};

#[test]
fn cache_round_trip_and_stale_fingerprint() {
    let names = vec!["NS.A.T1".to_string(), "NS.B.T2(x: 1)".to_string()];
    let text = cache_content(1700000000123, &names);
    assert_eq!(text, "1700000000123\nNS.A.T1\nNS.B.T2(x: 1)");
    assert_eq!(cached_names(&text, 1700000000123), Some(names.clone()));
    assert_eq!(cached_names(&text, 1700000000124), None);
}

#[test]
fn cache_of_no_names() {
    let text = cache_content(0, &Vec::new());
    assert_eq!(text, "0");
    assert_eq!(cached_names(&text, 0), Some(Vec::new()));
}

#[test]
fn corrupt_cache_is_a_miss() {
    assert_eq!(cached_names("", 5), None);
    assert_eq!(cached_names("abc\nX", 5), None);
    assert_eq!(cached_names("99999999999999999999999\nX", 5), None);
}

#[test]
fn fingerprint_takes_newest_time() {
    assert_eq!(fingerprint_of(10, Some(20)), 20);
    assert_eq!(fingerprint_of(30, Some(20)), 30);
    assert_eq!(fingerprint_of(30, None), 30);
}
