use crowdsec_map::access_log::summarize_access_log;
use crowdsec_map::json::JsonValue;
use crowdsec_map::time::UtcTime;

fn entry(ts: &str, ip: Option<&str>, country: Option<&str>) -> JsonValue {
    let mut m = vec![("ts".to_string(), JsonValue::Str(ts.to_string()))];
    if let Some(ip) = ip {
        m.push(("ip".to_string(), JsonValue::Str(ip.to_string())));
    }
    if let Some(c) = country {
        m.push(("country".to_string(), JsonValue::Str(c.to_string())));
    }
    JsonValue::Object(m)
}

#[test]
fn the_window_is_counted_and_ranked() {
    let entries = vec![
        entry("2026-01-05T10:00:00Z", Some("1.1.1.1"), Some("US")),
        entry("2026-01-01T10:00:00Z", Some("9.9.9.9"), Some("FR")),
        entry("2026-01-04T10:00:00Z", Some("2.2.2.2"), Some("DE")),
        entry("not a time", Some("3.3.3.3"), None),
        entry("2026-01-05T11:00:00Z", Some("1.1.1.1"), None),
        entry("2026-01-05T12:00:00Z", None, Some("US")),
    ];
    let since = UtcTime { secs: 1_767_484_800, nanos: 0 };
    let since_24h = UtcTime { secs: 1_767_571_200, nanos: 0 };
    let s = summarize_access_log(&entries, &since, &since_24h);
    assert_eq!(s.total, 4);
    assert_eq!(s.visits_24h, 3);
    assert_eq!(s.unique_ips, 2);
    assert_eq!(s.top_ips, vec![("1.1.1.1".to_string(), 2), ("2.2.2.2".to_string(), 1), ("".to_string(), 1)]);
    assert_eq!(s.top_countries, vec![("US".to_string(), 2), ("DE".to_string(), 1), ("".to_string(), 1)]);
    assert_eq!(s.recent, vec![0, 2, 4, 5]);
}

#[test]
fn only_eighty_entries_are_recent() {
    let entries: Vec<JsonValue> =
        (0..100).map(|_| entry("2026-01-05T10:00:00Z", Some("1.1.1.1"), Some("US"))).collect();
    let since = UtcTime { secs: 0, nanos: 0 };
    let s = summarize_access_log(&entries, &since, &since);
    assert_eq!(s.total, 100);
    assert_eq!(s.recent.len(), 80);
    assert_eq!(s.recent[79], 79);
    assert_eq!(s.top_ips, vec![("1.1.1.1".to_string(), 100)]);
}
