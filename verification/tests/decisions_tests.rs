use crowdsec_map::decisions::{
    country_is_missing, decision_field, decision_stats, decisions_page, filter_decisions,
    sort_decisions,
};
use crowdsec_map::models::ActiveBan;

fn ban(ip: &str, value: &str, scope: &str, country: &str, scenario: &str, origin: &str, duration: &str) -> ActiveBan {
    ActiveBan {
        id: format!("id-{ip}"),
        ip: ip.to_string(),
        value: value.to_string(),
        country: country.to_string(),
        scenario: scenario.to_string(),
        origin: origin.to_string(),
        scope: scope.to_string(),
        duration: duration.to_string(),
        until: "2026-02-01".to_string(),
        ban_type: "ban".to_string(),
        created_at: "2026-01-01".to_string(),
    }
}

fn items() -> Vec<ActiveBan> {
    vec![
        ban("1.1.1.1", "1.1.1.1", "Ip", "US", "ssh-bf", "CrowdSec", "4h"),
        ban("2.2.2.2", "", "ip", "DE", "http-probing", "cscli", ""),
        ban("", "3.3.3.0/24", "Range", "", "ssh-bf", "lists", "1h"),
        ban("1.1.1.1", "1.1.1.1", "IP", "US", "http-probing", "crowdsec", "2h"),
    ]
}

#[test]
fn fields_fall_back_as_the_view_expects() {
    let b = &items()[1];
    assert_eq!(decision_field(b, "value"), "2.2.2.2");
    assert_eq!(decision_field(b, "duration"), "2026-02-01");
    assert_eq!(decision_field(b, "scope"), "ip");
    assert_eq!(decision_field(b, "nonsense"), "");
}

#[test]
fn search_terms_must_all_match() {
    assert_eq!(filter_decisions(items(), "").len(), 4);
    let r = filter_decisions(items(), "ssh us");
    assert_eq!(r.len(), 1);
    assert_eq!(r[0].ip, "1.1.1.1");
    assert_eq!(filter_decisions(items(), "http-probing").len(), 2);
    assert_eq!(filter_decisions(items(), "nothing-like-this").len(), 0);
}

#[test]
fn sorting_is_stable_in_both_directions() {
    let asc = sort_decisions(items(), "scenario", false);
    let order: Vec<&str> = asc.iter().map(|b| b.ip.as_str()).collect();
    assert_eq!(order, vec!["2.2.2.2", "1.1.1.1", "1.1.1.1", ""]);
    assert_eq!(asc[1].scenario, "http-probing");
    let desc = sort_decisions(items(), "scenario", true);
    let order: Vec<&str> = desc.iter().map(|b| b.ip.as_str()).collect();
    assert_eq!(order, vec!["1.1.1.1", "", "2.2.2.2", "1.1.1.1"]);
    let none = sort_decisions(items(), "", true);
    assert_eq!(none[2].scope, "Range");
}

#[test]
fn stats_count_distinct_values_and_blocked_addresses() {
    let s = decision_stats(&items());
    assert_eq!(s.countries, 2);
    assert_eq!(s.scenarios, 2);
    assert_eq!(s.unique_blocked_ips, 2);
    assert_eq!(s.blocked_by_origin.len(), 2);
    assert_eq!(s.blocked_by_origin[0].key, "crowdsec");
    assert_eq!(s.blocked_by_origin[0].count, 1);
    assert_eq!(s.blocked_by_origin[1].key, "cscli");
    assert_eq!(s.top_countries, vec![("US".to_string(), 2), ("DE".to_string(), 1)]);
    assert_eq!(s.top_scenarios[0], ("ssh-bf".to_string(), 2));
    assert_eq!(s.top_origins.len(), 4);
}

#[test]
fn an_empty_origin_is_labelled_unknown() {
    let s = decision_stats(&vec![ban("9.9.9.9", "9.9.9.9", "Ip", "", "x", "", "")]);
    assert_eq!(s.blocked_by_origin[0].key, "");
    assert_eq!(s.blocked_by_origin[0].label, "Unknown");
}

#[test]
fn pages_and_missing_countries() {
    let (page, next) = decisions_page(&items(), 1, 2);
    assert_eq!(page.len(), 2);
    assert_eq!(page[0].ip, "2.2.2.2");
    assert_eq!(next, Some(3));
    let (page, next) = decisions_page(&items(), 3, 5);
    assert_eq!(page.len(), 1);
    assert_eq!(next, None);
    assert!(country_is_missing("  "));
    assert!(country_is_missing("??"));
    assert!(!country_is_missing("unknown"));
    assert!(!country_is_missing("FR"));
}
