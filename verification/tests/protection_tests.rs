use crowdsec_map::parsers::{
    host_from_groups, parse_host, parse_line_timestamp, timestamp_step, FormStep, LogPatterns,
};
use crowdsec_map::protection::{
    accumulate_proxy_line, cached_windows, line_is_refused, protection_cache_expiry, scan_lines,
    scan_warning, summarize_scan, ProxyTally,
};
use crowdsec_map::time::UtcTime;

fn since() -> UtcTime {
    UtcTime { secs: 1_767_571_200, nanos: 0 }
}

#[test]
fn timestamps_are_read_from_three_formats() {
    let p = LogPatterns::new().unwrap();
    let z = parse_line_timestamp(&p, "[2026-01-05 10:15:00] GET / host=a.example 200").unwrap();
    assert_eq!((z.secs, z.nanos), (1_767_608_100, 0));
    let iso = parse_line_timestamp(&p, "ts=2026-01-05T10:15:00.250Z level=info").unwrap();
    assert_eq!((iso.secs, iso.nanos), (1_767_608_100, 250_000_000));
    let spaced = parse_line_timestamp(&p, "2026-01-05 11:15:00+01:00 started").unwrap();
    assert_eq!(spaced.secs, 1_767_608_100);
    let apache =
        parse_line_timestamp(&p, r#"1.2.3.4 - - [05/Jan/2026:11:15:00 +0100] "GET / HTTP/1.1" 200"#)
            .unwrap();
    assert_eq!(apache.secs, 1_767_608_100);
    assert!(parse_line_timestamp(&p, "no time here").is_none());
}

#[test]
fn hosts_are_read_from_host_or_origin() {
    let p = LogPatterns::new().unwrap();
    assert_eq!(parse_host(&p, "GET / host=a.example.com 200"), Some("a.example.com".to_string()));
    assert_eq!(parse_host(&p, "[origin:b.example.com] GET"), Some("b.example.com".to_string()));
    assert_eq!(parse_host(&p, "GET / 200"), None);
}

#[test]
fn refused_requests_are_recognised() {
    assert!(line_is_refused("GET /x 403 12"));
    assert!(line_is_refused("GET /x 429 12"));
    assert!(!line_is_refused("GET /x 4290 12"));
    assert!(line_is_refused("GET /x 444 0"));
    assert!(!line_is_refused("GET /x 200 12"));
}

fn lines() -> Vec<String> {
    vec![
        "[2026-01-05 10:15:00] GET / host=a.example 403".to_string(),
        "[2026-01-05 10:45:00] GET / host=a.example 200".to_string(),
        "[2026-01-05 11:05:00] GET / host=b.example 429 ".to_string(),
        "[2026-01-04 23:59:59] GET / host=b.example 403".to_string(),
        "no timestamp host=c.example 403".to_string(),
        "[2026-01-05 12:00:00] GET / 200".to_string(),
    ]
}

#[test]
fn a_scan_counts_requests_by_hour_and_host() {
    let p = LogPatterns::new().unwrap();
    let mut t = ProxyTally::new();
    for l in lines() {
        accumulate_proxy_line(&p, &l, &since(), &mut t);
    }
    assert_eq!(t.parsed_requests, 4);
    let s = summarize_scan(&t);
    assert_eq!(s.processed_total, 4);
    assert_eq!(s.refused_total, 2);
    let hosts: Vec<(&str, i64, i64)> = s
        .hosts
        .iter()
        .map(|h| (h.hostname.as_str(), h.processed_requests, h.refused_requests))
        .collect();
    assert_eq!(hosts, vec![("a.example", 2, 1), ("b.example", 1, 1), ("unknown host", 1, 0)]);
    let hours: Vec<(&str, i64, i64)> = s
        .timeline
        .iter()
        .map(|h| (h.timestamp.as_str(), h.processed_requests, h.refused_requests))
        .collect();
    assert_eq!(
        hours,
        vec![
            ("2026-01-05T10:00:00Z", 2, 1),
            ("2026-01-05T11:00:00Z", 1, 1),
            ("2026-01-05T12:00:00Z", 1, 0)
        ]
    );
}

#[test]
fn scanning_a_run_matches_line_by_line() {
    let p = LogPatterns::new().unwrap();
    let mut one = ProxyTally::new();
    for l in lines() {
        accumulate_proxy_line(&p, &l, &since(), &mut one);
    }
    let mut all = ProxyTally::new();
    scan_lines(&p, &lines(), &since(), &mut all);
    assert_eq!(one.parsed_requests, all.parsed_requests);
    assert_eq!(one.host_requests, all.host_requests);
    assert_eq!(one.host_refused, all.host_refused);
    assert_eq!(one.hour_requests, all.hour_requests);
    assert_eq!(one.hour_refused, all.hour_refused);
}

#[test]
fn at_most_twenty_hosts_are_listed() {
    let p = LogPatterns::new().unwrap();
    let mut t = ProxyTally::new();
    for i in 0..25 {
        let l = format!("[2026-01-05 10:15:00] GET / host=h{i}.example {}", if i % 2 == 0 { 403 } else { 200 });
        accumulate_proxy_line(&p, &l, &since(), &mut t);
    }
    let s = summarize_scan(&t);
    assert_eq!(s.hosts.len(), 20);
    assert_eq!(s.hosts[0].hostname, "h0.example");
    assert_eq!(s.hosts[12].refused_requests, 1);
    assert_eq!(s.hosts[13].refused_requests, 0);
    assert_eq!(s.processed_total, 25);
    assert_eq!(s.refused_total, 13);
}

#[test]
fn cache_helpers() {
    assert_eq!(cached_windows(), vec![1, 3, 7]);
    assert_eq!(protection_cache_expiry(1_000, 0), 2_000);
    assert_eq!(protection_cache_expiry(1_000, 3600), 3_601_000);
    assert_eq!(scan_warning(0), "No readable proxy access logs found. Mount Zoraxy logs and configure PROTECTION_LOG_PATHS.");
    assert_eq!(scan_warning(2), "");
}

#[test]
fn timestamp_forms_decide_in_turn() {
    let t = UtcTime { secs: 1_700_000_000, nanos: 0 };
    assert!(matches!(timestamp_step(Some(Some(Some(t)))), FormStep::Found(u) if u.secs == 1_700_000_000));
    assert!(matches!(timestamp_step(Some(None)), FormStep::NoTimestamp));
    assert!(matches!(timestamp_step(Some(Some(None))), FormStep::TryNext));
    assert!(matches!(timestamp_step(None), FormStep::TryNext));
}

#[test]
fn host_group_comes_before_origin_group() {
    assert_eq!(host_from_groups(Some("a".to_string()), Some("b".to_string())).as_deref(), Some("a"));
    assert_eq!(host_from_groups(None, Some("b".to_string())).as_deref(), Some("b"));
    assert_eq!(host_from_groups(None, None), None);
}
