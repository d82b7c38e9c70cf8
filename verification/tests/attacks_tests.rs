use crowdsec_map::attacks::{
    attacks_cache_seconds, bans_for_ip, build_totals, group_counts_json, history_record,
    lapi_status, public_ip_source, retention_cutoff, runtime_revision, update_status,
    CachedActiveBans, DataLoad, LoadStep, SourceKind, decision_sources, DecisionSource,
};
use crowdsec_map::config::Config;
use crowdsec_map::json::JsonValue;
use crowdsec_map::models::{ActiveBan, Alert};

fn alert(id: &str, ip: &str, country: &str, scenario: &str, decision: &str, created: &str) -> Alert {
    Alert {
        id: id.to_string(),
        ip: ip.to_string(),
        country: country.to_string(),
        city: String::new(),
        latitude: None,
        longitude: None,
        scenario: scenario.to_string(),
        decision_type: decision.to_string(),
        value: ip.to_string(),
        created_at: created.to_string(),
        count: 3,
        as_name: "AS".to_string(),
        origin: "crowdsec".to_string(),
        scope: "Ip".to_string(),
        duration: String::new(),
        until: String::new(),
    }
}

#[test]
fn auto_tries_every_source_then_falls_back() {
    let mut load = DataLoad::new("auto", "auto");
    assert!(matches!(load.next_step(), LoadStep::Fetch(SourceKind::LapiAlerts)));
    load.source_failed();
    assert!(matches!(load.next_step(), LoadStep::Fetch(SourceKind::Cscli)));
    load.source_failed();
    assert_eq!(load.warning(), "lapi-alerts: failed to read alerts | cscli: failed to read alerts");
    assert!(matches!(load.next_step(), LoadStep::Fetch(SourceKind::Demo)));
}

#[test]
fn named_sources_are_tried_alone() {
    let mut load = DataLoad::new("auto", "sample");
    assert!(matches!(load.next_step(), LoadStep::Fetch(SourceKind::Demo)));
    let mut load = DataLoad::new("cscli", "auto");
    assert!(matches!(load.next_step(), LoadStep::Fetch(SourceKind::Cscli)));
    load.source_failed();
    match load.next_step() {
        LoadStep::Fallback(w) => assert_eq!(w, "cscli: failed to read alerts"),
        _ => panic!("nothing is left to try"),
    }
    let mut load = DataLoad::new("bogus", "auto");
    match load.next_step() {
        LoadStep::Fallback(w) => assert_eq!(w, "No data source returned data"),
        _ => panic!("an unknown source loads nothing"),
    }
}

#[test]
fn totals_and_top_groups() {
    let alerts = vec![
        alert("1", "1.1.1.1", "US", "ssh-bf", "ban", ""),
        alert("2", "2.2.2.2", "", "ssh-bf", "captcha", ""),
        alert("3", "3.3.3.3", "DE", "", "ban", ""),
        alert("4", "4.4.4.4", "US", "http", "ban", ""),
    ];
    let t = build_totals(&alerts, 7);
    assert_eq!((t.alerts, t.countries, t.scenarios, t.bans, t.active_bans), (4, 2, 2, 3, 7));
    assert_eq!(
        group_counts_json(&alerts, "country", 8),
        vec![("US".to_string(), 2), ("unknown".to_string(), 1), ("DE".to_string(), 1)]
    );
    assert_eq!(group_counts_json(&alerts, "scenario", 1), vec![("ssh-bf".to_string(), 2)]);
    assert_eq!(group_counts_json(&alerts, "other", 8), vec![("unknown".to_string(), 4)]);
}

fn ban(ip: &str, value: &str, created: &str, duration: &str) -> ActiveBan {
    ActiveBan {
        id: "x".to_string(),
        ip: ip.to_string(),
        value: value.to_string(),
        country: String::new(),
        scenario: String::new(),
        origin: String::new(),
        scope: "Ip".to_string(),
        duration: duration.to_string(),
        until: String::new(),
        ban_type: "ban".to_string(),
        created_at: created.to_string(),
    }
}

#[test]
fn the_bans_of_one_address() {
    let items = vec![
        ban("1.1.1.1", "1.1.1.1", "2026-01-03", ""),
        ban("9.9.9.9", "9.9.9.9", "2026-01-01", "1h"),
        ban("", "1.1.1.1", "", "3h"),
        ban("1.1.1.1", "1.1.1.1", "2026-01-02", "2h"),
    ];
    let b = bans_for_ip(&items, "1.1.1.1");
    assert_eq!(b.count, 3);
    assert_eq!(b.since, "2026-01-02");
    assert_eq!(b.remaining, "3h");
    let none = bans_for_ip(&items, "5.5.5.5");
    assert_eq!((none.count, none.since.as_str(), none.remaining.as_str()), (0, "", ""));
}

#[test]
fn history_records_fill_defaults() {
    let r = history_record(&alert("a", "10.1.2.3", "", "", "ban", "2026-01-05T10:15:00Z"), "NOW", 5);
    assert_eq!(r.seen_at, "2026-01-05T10:15:00Z");
    assert_eq!(r.seen_at_ms, 1_767_608_100_000);
    assert_eq!(r.cidr24, "10.1.2.*");
    assert_eq!(r.country, "??");
    assert_eq!(r.scenario, "unknown");
    assert_eq!(r.event_count, 3);
    let r = history_record(&alert("b", "::1", "FR", "x", "ban", ""), "garbled", 42);
    assert_eq!((r.seen_at.as_str(), r.seen_at_ms), ("garbled", 42));
    assert_eq!(retention_cutoff(1_000_000_000, 2), 1_000_000_000 - 172_800_000);
}

#[test]
fn update_status_compares_revisions() {
    let running: Result<(String, String), String> = Ok(("img".to_string(), "abc".to_string()));
    let same: Result<(String, String), String> = Ok(("abc".to_string(), "url".to_string()));
    let newer: Result<(String, String), String> = Ok(("def".to_string(), "url".to_string()));
    assert_eq!(update_status(&running, &same).state, "current");
    let u = update_status(&running, &newer);
    assert_eq!(u.state, "update_available");
    assert_eq!(u.message, "A newer dev image is available. Run Force Update in Unraid.");
    let failed: Result<(String, String), String> = Err("no docker".to_string());
    let offline: Result<(String, String), String> = Err("no network".to_string());
    let u = update_status(&failed, &offline);
    assert_eq!(u.state, "unavailable");
    assert_eq!(u.message, "no docker | no network");
    let u = update_status(&running, &offline);
    assert_eq!((u.message.as_str(), u.image.as_str(), u.dev_url.as_str()), ("no network", "img", ""));
    assert_eq!(
        runtime_revision(true, Some("img".to_string()), None),
        Err("The running image does not expose a Git revision label".to_string())
    );
    assert_eq!(runtime_revision(false, None, None), Err("Container configuration is unavailable".to_string()));
    assert_eq!(
        runtime_revision(true, Some("img".to_string()), Some("r1".to_string())),
        Ok(("img".to_string(), "r1".to_string()))
    );
}

#[test]
fn lapi_credentials_and_small_rules() {
    let vars = vec![("LAPI_API_KEY".to_string(), "k".to_string())];
    let config = Config::from_env_vars(&vars);
    let stored = JsonValue::Object(vec![
        ("login".to_string(), JsonValue::Str("m".to_string())),
        ("password".to_string(), JsonValue::Str("p".to_string())),
    ]);
    let s = lapi_status(&config, &stored);
    assert!(s.watcher_configured && s.decisions_configured && s.managed);
    let s = lapi_status(&config, &JsonValue::Null);
    assert!(!s.watcher_configured && s.decisions_configured && !s.managed);
    assert_eq!(public_ip_source(""), "unavailable");
    assert_eq!(public_ip_source("1.2.3.4"), "configured");
    let cache = CachedActiveBans { expires_at_ms: 10, items: vec![] };
    assert!(cache.is_fresh(9));
    assert!(!cache.is_fresh(10));
    assert_eq!(attacks_cache_seconds(&Config::from_env_vars(&vec![])), 5);
    let zero = Config::from_env_vars(&vec![("ATTACKS_CACHE_SECONDS".to_string(), "0".to_string())]);
    assert_eq!(attacks_cache_seconds(&zero), 1);
}

#[test]
fn decisions_come_from_the_local_api_first_when_keyed() {
    assert!(matches!(
        decision_sources("key").as_slice(),
        [DecisionSource::Lapi, DecisionSource::Cscli]
    ));
    assert!(matches!(decision_sources("").as_slice(), [DecisionSource::Cscli]));
}
