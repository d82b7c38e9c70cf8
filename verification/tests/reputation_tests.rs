use crowdsec_map::json::JsonValue;
use crowdsec_map::reputation::{
    bump_cti_stats, cache_entry_fresh, collect_strings, cti_url, reputation_links,
    reputation_status, CtiCounter, CtiStats, ReputationStatus,
};

#[test]
fn verdicts_follow_score_and_behaviours() {
    assert!(matches!(reputation_status(true, true, true, 9), ReputationStatus::FalsePositive));
    assert!(matches!(reputation_status(false, true, true, 0), ReputationStatus::Malicious));
    assert!(matches!(reputation_status(false, false, false, 3), ReputationStatus::Malicious));
    assert!(matches!(reputation_status(false, false, true, 0), ReputationStatus::Suspicious));
    assert!(matches!(reputation_status(false, false, false, 1), ReputationStatus::Suspicious));
    let u = reputation_status(false, false, false, 0);
    assert_eq!(u.name(), "unknown");
    assert_eq!(u.summary(), "No strong malicious reputation signal returned by CrowdSec CTI.");
    assert_eq!(ReputationStatus::FalsePositive.name(), "false_positive");
}

fn strs(items: &[&str]) -> JsonValue {
    JsonValue::Array(items.iter().map(|s| JsonValue::Str(s.to_string())).collect())
}

#[test]
fn strings_are_collected_sorted_and_once() {
    let a = strs(&[" ssh:bruteforce ", "http:scan", ""]);
    let b = JsonValue::Array(vec![
        JsonValue::Str("http:scan".to_string()),
        JsonValue::Object(vec![("name".to_string(), JsonValue::Str("x".to_string()))]),
        JsonValue::Str("generic:exploit".to_string()),
    ]);
    let not_array = JsonValue::Str("ignored".to_string());
    let r = collect_strings(&vec![Some(&a), None, Some(&b), Some(&not_array)]);
    assert_eq!(r, vec!["generic:exploit", "http:scan", "ssh:bruteforce"]);
    assert!(collect_strings(&vec![]).is_empty());
}

#[test]
fn cached_answers_expire() {
    let cached_ms = 1_767_608_100_000_i64;
    assert!(cache_entry_fresh(cached_ms + 3_599_999, "2026-01-05T10:15:00Z", 1));
    assert!(!cache_entry_fresh(cached_ms + 3_600_000, "2026-01-05T10:15:00Z", 1));
    assert!(!cache_entry_fresh(cached_ms, "yesterday", 72));
}

#[test]
fn urls_and_counters() {
    assert_eq!(cti_url("https://cti.example/v2//", "1.2.3.4"), "https://cti.example/v2/smoke/1.2.3.4");
    let (web, shodan) = reputation_links("1.2.3.4");
    assert_eq!(web, "https://app.crowdsec.net/cti/1.2.3.4");
    assert_eq!(shodan, "https://www.shodan.io/host/1.2.3.4");
    let mut s = CtiStats { period: "2026-01".to_string(), network_requests: 4, cache_hits: 2 };
    bump_cti_stats(&mut s, "2026-01", CtiCounter::CacheHits);
    assert_eq!((s.network_requests, s.cache_hits), (4, 3));
    bump_cti_stats(&mut s, "2026-02", CtiCounter::NetworkRequests);
    assert_eq!((s.period.as_str(), s.network_requests, s.cache_hits), ("2026-02", 1, 0));
}
