use apollo_router::config::{cache_limit, limit_or_default, DEFAULT_CACHE_LIMIT};

#[test]
fn unset_limit_is_the_default() {
    assert_eq!(cache_limit(None), 100);
    assert_eq!(DEFAULT_CACHE_LIMIT, 100);
}

#[test]
fn a_number_is_taken_as_the_limit() {
    assert_eq!(cache_limit(Some("42")), 42);
    assert_eq!(cache_limit(Some("+7")), 7);
    assert_eq!(cache_limit(Some("007")), 7);
    assert_eq!(cache_limit(Some("1")), 1);
}

#[test]
fn zero_is_no_limit_and_gives_the_default() {
    assert_eq!(cache_limit(Some("0")), 100);
    assert_eq!(cache_limit(Some("+0")), 100);
    assert_eq!(cache_limit(Some("00")), 100);
    assert_eq!(limit_or_default(Some(0)), 100);
}

#[test]
fn a_limit_is_never_zero() {
    for text in ["0", "1", "", "x", "+0", "18446744073709551616", "5"] {
        assert!(cache_limit(Some(text)) >= 1);
    }
    assert!(cache_limit(None) >= 1);
}

#[test]
fn what_is_no_number_gives_the_default() {
    assert_eq!(cache_limit(Some("")), 100);
    assert_eq!(cache_limit(Some("many")), 100);
    assert_eq!(cache_limit(Some("-3")), 100);
    assert_eq!(cache_limit(Some(" 5")), 100);
    assert_eq!(cache_limit(Some("5 ")), 100);
    assert_eq!(cache_limit(Some("1_000")), 100);
    assert_eq!(cache_limit(Some("+")), 100);
    assert_eq!(cache_limit(Some("99999999999999999999999999")), 100);
}

#[test]
fn limit_or_default_keeps_a_number() {
    assert_eq!(limit_or_default(Some(3)), 3);
    assert_eq!(limit_or_default(None), 100);
}
