use crowdsec_map::history::{
    address_history, address_rows_sql, group_history, group_rows_sql, history_groups_page,
    history_rows_sql, HistoryRow,
};

fn row(ip: &str, cidr: &str, asn: &str, country: &str, scenario: &str, seen: &str, n: i64) -> HistoryRow {
    HistoryRow {
        ip: ip.to_string(),
        cidr24: cidr.to_string(),
        as_name: asn.to_string(),
        country: country.to_string(),
        scenario: scenario.to_string(),
        seen_at: seen.to_string(),
        event_count: n,
    }
}

fn sample() -> Vec<HistoryRow> {
    vec![
        row("1.1.1.1", "1.1.1.*", "A", "US", "ssh-bf", "2026-01-03T10:00:00Z", 2),
        row("1.1.1.2", "1.1.1.*", "A", "US", "http-probing", "2026-01-02T10:00:00Z", 5),
        row("2.2.2.2", "2.2.2.*", "B", "DE", "ssh-bf", "2026-01-02T09:00:00Z", 1),
        row("1.1.1.1", "1.1.1.*", "A", "FR", "ssh-bf", "2026-01-01T10:00:00Z", 4),
    ]
}

#[test]
fn groups_summarise_their_rows() {
    let groups = group_history(&sample(), "cidr24");
    assert_eq!(groups.len(), 2);
    let g = &groups[0];
    assert_eq!(g.label, "1.1.1.*");
    assert_eq!(g.alerts, 11);
    assert_eq!(g.events, 3);
    assert_eq!(g.days_seen, 3);
    assert_eq!(g.ip_count, 2);
    assert_eq!(g.last_seen, "2026-01-03T10:00:00Z");
    assert_eq!(g.top_scenario, "ssh-bf");
    assert_eq!(g.top_country, "US");
    assert_eq!(groups[1].label, "2.2.2.*");
    assert_eq!(groups[1].alerts, 1);
}

#[test]
fn group_events_and_alerts_add_up_to_the_rows() {
    let rows = sample();
    for key in ["ip", "asn", "country", "scenario", "cidr24"] {
        let groups = group_history(&rows, key);
        let events: usize = groups.iter().map(|g| g.events).sum();
        let alerts: i64 = groups.iter().map(|g| g.alerts).sum();
        assert_eq!(events, rows.len());
        assert_eq!(alerts, 12);
    }
}

#[test]
fn group_pages_are_ordered_by_alerts() {
    let page = history_groups_page(&sample(), "country", 0, 2);
    assert_eq!(page.total, 3);
    assert_eq!(page.next_offset, Some(2));
    let labels: Vec<&str> = page.items.iter().map(|g| g.label.as_str()).collect();
    assert_eq!(labels, vec!["US", "FR"]);
    let rest = history_groups_page(&sample(), "country", 2, 2);
    assert_eq!(rest.next_offset, None);
    assert_eq!(rest.items.len(), 1);
    assert_eq!(rest.items[0].label, "DE");
    assert!(history_groups_page(&sample(), "country", 10, 2).items.is_empty());
}

#[test]
fn an_address_history_is_summarised_and_paged() {
    let rows = vec![
        row("1.1.1.1", "1.1.1.*", "A", "US", "ssh-bf", "2026-01-03T10:00:00Z", 2),
        row("1.1.1.1", "1.1.1.*", "A", "US", "ssh-bf", "2026-01-01T10:00:00Z", 4),
        row("1.1.1.1", "1.1.1.*", "B", "US", "http-probing", "2026-01-02T10:00:00Z", 1),
    ];
    let h = address_history(&rows, 1, 1);
    assert_eq!(h.stats.alerts, 7);
    assert_eq!(h.stats.events, 3);
    assert_eq!(h.stats.days_seen, 3);
    assert_eq!(h.first_seen, "2026-01-01T10:00:00Z");
    assert_eq!(h.stats.last_seen, "2026-01-03T10:00:00Z");
    assert_eq!(h.stats.top_as_name, "A");
    assert_eq!((h.page_start, h.page_end), (1, 2));
    assert_eq!(h.next_offset, Some(2));
}

#[test]
fn history_queries_quote_their_values() {
    assert_eq!(
        history_rows_sql(-5),
        "SELECT ip, cidr24, as_name, country, scenario, seen_at, event_count FROM alerts WHERE seen_at_ms >= -5 ORDER BY seen_at_ms DESC"
    );
    assert_eq!(
        group_rows_sql(100, "asn", "O'Hara ISP"),
        "SELECT ip, country, scenario, as_name, seen_at, event_count FROM alerts WHERE seen_at_ms >= 100 AND as_name = 'O''Hara ISP' ORDER BY seen_at_ms DESC"
    );
    assert_eq!(
        group_rows_sql(0, "bogus", "1.2.3.*"),
        "SELECT ip, country, scenario, as_name, seen_at, event_count FROM alerts WHERE seen_at_ms >= 0 AND cidr24 = '1.2.3.*' ORDER BY seen_at_ms DESC"
    );
    assert_eq!(
        address_rows_sql(7, "1.2.3.4"),
        "SELECT scenario, country, as_name, seen_at, event_count FROM alerts WHERE seen_at_ms >= 7 AND ip = '1.2.3.4' ORDER BY seen_at_ms DESC"
    );
}
