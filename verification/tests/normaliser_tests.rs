use crowdsec_map::json::{JsonNumber, JsonValue};
use crowdsec_map::normaliser::{
    clamp_u64, clamp_usize, expand_pattern, is_feed_update, normalize_alert_payload,
    normalize_decisions_as_bans, normalize_group_by, sql_escape, to_cidr24, top_count_label,
    truncate_line,
};

fn to_json(v: &serde_json::Value) -> JsonValue {
    match v {
        serde_json::Value::Null => JsonValue::Null,
        serde_json::Value::Bool(b) => JsonValue::Bool(*b),
        serde_json::Value::Number(n) => {
            if let Some(u) = n.as_u64() {
                JsonValue::Number(JsonNumber::PosInt(u))
            } else if let Some(i) = n.as_i64() {
                JsonValue::Number(JsonNumber::NegInt(i))
            } else {
                JsonValue::Number(JsonNumber::Float(n.as_f64().unwrap_or(0.0).to_bits()))
            }
        }
        serde_json::Value::String(s) => JsonValue::Str(s.clone()),
        serde_json::Value::Array(a) => JsonValue::Array(a.iter().map(to_json).collect()),
        serde_json::Value::Object(m) => {
            JsonValue::Object(m.iter().map(|(k, v)| (k.clone(), to_json(v))).collect())
        }
    }
}

fn parse(text: &str) -> JsonValue {
    to_json(&serde_json::from_str::<serde_json::Value>(text).unwrap())
}

#[test]
fn long_lines_are_cut_by_characters() {
    assert_eq!(truncate_line("short", 10), "short");
    assert_eq!(truncate_line("abcdefghij", 4), "abcd...");
    assert_eq!(truncate_line("ééé", 4), "ééé...");
    assert_eq!(truncate_line("", 0), "");
}

#[test]
fn cidr24_groups_dotted_addresses_only() {
    assert_eq!(to_cidr24("192.168.1.20"), "192.168.1.*");
    assert_eq!(to_cidr24("2001:db8::1"), "2001:db8::1");
    assert_eq!(to_cidr24("1.2.3"), "1.2.3");
    assert_eq!(to_cidr24(to_cidr24("10.0.0.7").as_str()), "10.0.0.*");
}

#[test]
fn query_numbers_are_clamped() {
    assert_eq!(clamp_u64(None, 7, 1, 180), 7);
    assert_eq!(clamp_u64(Some("500"), 7, 1, 180), 180);
    assert_eq!(clamp_u64(Some("0"), 7, 1, 180), 1);
    assert_eq!(clamp_u64(Some("abc"), 7, 1, 180), 7);
    assert_eq!(clamp_u64(Some("-3"), 7, 1, 180), 7);
    assert_eq!(clamp_u64(Some("+12"), 7, 1, 180), 12);
    assert_eq!(clamp_usize(Some("99999999999999999999999"), 50, 1, 200), 50);
    assert_eq!(clamp_usize(Some("25"), 50, 1, 200), 25);
}

#[test]
fn grouping_defaults_to_networks() {
    assert_eq!(normalize_group_by(None), "cidr24");
    assert_eq!(normalize_group_by(Some("country")), "country");
    assert_eq!(normalize_group_by(Some("Country")), "cidr24");
    assert_eq!(normalize_group_by(Some("asn")), "asn");
}

#[test]
fn sql_values_have_quotes_doubled() {
    assert_eq!(sql_escape("o'brien"), "o''brien");
    assert_eq!(sql_escape("''"), "''''");
    assert_eq!(sql_escape("plain"), "plain");
    assert_eq!(sql_escape("x'; DROP TABLE alerts; --").replace("''", "'"), "x'; DROP TABLE alerts; --");
}

#[test]
fn feed_updates_are_recognised() {
    assert!(is_feed_update("update : +12/-3 IPs"));
    assert!(is_feed_update("  Update:+1/-0 ip "));
    assert!(!is_feed_update("ssh-bf"));
    assert!(!is_feed_update("update : +12/-3 IPs later"));
}

#[test]
fn top_label_prefers_the_last_of_equal_counts() {
    assert_eq!(top_count_label(&vec![]), "unknown");
    let m = vec![("a".to_string(), 3), ("b".to_string(), 5), ("c".to_string(), 5), ("d".to_string(), 1)];
    assert_eq!(top_count_label(&m), "c");
}

#[test]
fn patterns_are_made_absolute() {
    assert_eq!(expand_pattern("~/logs/*.log", Some("/home/me"), Some("/srv")), "/home/me/logs/*.log");
    assert_eq!(expand_pattern("/var/log/x.log", Some("/home/me"), Some("/srv")), "/var/log/x.log");
    assert_eq!(expand_pattern("logs/x.log", None, Some("/srv")), "/srv/logs/x.log");
    assert_eq!(expand_pattern("logs/x.log", None, None), "logs/x.log");
    assert_eq!(expand_pattern("~/x", None, Some("/srv")), "/srv/~/x");
}

#[test]
fn alert_payloads_are_normalised() {
    let payload = parse(
        r#"{"alerts": [
            {"id": "7", "scenario": "crowdsecurity/ssh-bf", "source": {"ip": "1.2.3.4", "cn": "FR", "as_name": "OVH"},
             "decisions": [{"type": "ban", "value": "1.2.3.4", "origin": "crowdsec", "duration": "4h"}],
             "events_count": 12, "created_at": "2026-01-01T00:00:00Z"},
            {"scenario": "update : +3/-1 IPs", "source": {"ip": "9.9.9.9"}},
            {"scenario": "crowdsecurity/http-probing"},
            {"reason": "manual", "value": "5.6.7.8"}
        ]}"#,
    );
    let alerts = normalize_alert_payload(&payload, "cscli", "NOW");
    assert_eq!(alerts.len(), 2);
    let a = &alerts[0];
    assert_eq!(a.id, "7");
    assert_eq!(a.ip, "1.2.3.4");
    assert_eq!(a.country, "FR");
    assert_eq!(a.scenario, "ssh-bf");
    assert_eq!(a.decision_type, "ban");
    assert_eq!(a.count, 12);
    assert_eq!(a.as_name, "OVH");
    assert_eq!(a.origin, "crowdsec");
    assert_eq!(a.scope, "Ip");
    assert_eq!(a.duration, "4h");
    let b = &alerts[1];
    assert_eq!(b.ip, "5.6.7.8");
    assert_eq!(b.scenario, "manual");
    assert_eq!(b.created_at, "NOW");
    assert_eq!(b.id, "5.6.7.8-NOW-3");
    assert_eq!(b.decision_type, "alert");
    assert_eq!(b.count, 1);
    let lapi = normalize_alert_payload(&parse(r#"[{"value": "5.6.7.8"}]"#), "lapi-decisions", "NOW");
    assert_eq!(lapi[0].created_at, "");
    assert_eq!(lapi[0].id, "5.6.7.8--0");
}

#[test]
fn decisions_are_normalised() {
    let bans = normalize_decisions_as_bans(&parse(
        r#"{"data": [
            {"id": 42, "value": "1.2.3.4", "scenario": "ssh-bf", "duration": "3h", "type": "ban"},
            {"ip": "5.6.7.8", "expires_at": "soon", "origin": "cscli", "scope": "Range"}
        ]}"#,
    ));
    assert_eq!(bans.len(), 2);
    assert_eq!(bans[0].id, "42");
    assert_eq!(bans[0].ip, "1.2.3.4");
    assert_eq!(bans[0].value, "1.2.3.4");
    assert_eq!(bans[0].origin, "unknown");
    assert_eq!(bans[1].id, "decision-1");
    assert_eq!(bans[1].value, "5.6.7.8");
    assert_eq!(bans[1].until, "soon");
    assert_eq!(bans[1].scenario, "unknown");
    assert_eq!(bans[1].ban_type, "ban");
    assert_eq!(bans[1].scope, "Range");
    assert!(normalize_decisions_as_bans(&parse(r#"{"other": 1}"#)).is_empty());
}

#[test]
fn cidr24_is_stable_and_groups_by_first_three_parts() {
    let a = to_cidr24("10.1.2.3");
    assert_eq!(a, "10.1.2.*");
    assert_eq!(to_cidr24(&a), a);
    assert_eq!(to_cidr24("10.1.2.200"), a);
    assert_ne!(to_cidr24("10.1.3.3"), a);
    assert_eq!(to_cidr24(&to_cidr24("::1")), "::1");
}

#[test]
fn sql_escape_doubles_each_quote() {
    let v = "it's ''odd'";
    let e = sql_escape(v);
    assert_eq!(e, "it''s ''''odd''");
    assert_eq!(e.chars().count(), v.chars().count() + v.matches('\'').count());
    assert_eq!(e.replace("''", "'"), v);
}
