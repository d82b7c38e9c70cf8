use crowdsec_map::geodb::{
    country_is_missing, enrich_decision_countries, enrich_ip_history_fields, enrich_view_countries,
};
use crowdsec_map::models::ActiveBan;

fn ban(ip: &str, value: &str, country: &str) -> ActiveBan {
    ActiveBan {
        id: "d".to_string(),
        ip: ip.to_string(),
        value: value.to_string(),
        country: country.to_string(),
        scenario: "s".to_string(),
        origin: "o".to_string(),
        scope: "Ip".to_string(),
        duration: "".to_string(),
        until: "".to_string(),
        ban_type: "ban".to_string(),
        created_at: "".to_string(),
    }
}

fn rows() -> Vec<(String, String, String)> {
    vec![
        ("5.5.5.5".to_string(), "5.5.5.*".to_string(), "NL".to_string()),
        ("6.6.6.6".to_string(), "6.6.6.*".to_string(), "BE".to_string()),
        ("6.6.6.9".to_string(), "6.6.6.*".to_string(), "LU".to_string()),
        ("5.5.5.5".to_string(), "5.5.5.*".to_string(), "IT".to_string()),
    ]
}

#[test]
fn countries_are_filled_from_geoip_then_history() {
    let mut items = vec![
        ban("1.1.1.1", "1.1.1.1", "US"),
        ban("2.2.2.2", "2.2.2.2", ""),
        ban("5.5.5.5", "5.5.5.5", "??"),
        ban("6.6.6.7", "6.6.6.7", " "),
        ban("7.7.7.7", "7.7.7.7", "unknown"),
        ban("8.8.8.8", "8.8.8.8", ""),
    ];
    let geo = vec![Some("XX".to_string()), Some("CA".to_string()), None, None, None, None];
    let r = rows();
    enrich_decision_countries(&mut items, &geo, Some(&r));
    let countries: Vec<&str> = items.iter().map(|b| b.country.as_str()).collect();
    assert_eq!(countries, vec!["US", "CA", "NL", "BE", "unknown", ""]);
    assert_eq!(items[3].ip, "6.6.6.7");
}

#[test]
fn the_view_keeps_unknown_and_works_without_history() {
    let mut items = vec![ban("7.7.7.7", "7.7.7.7", "unknown"), ban("5.5.5.5", "5.5.5.5", "")];
    let geo = vec![Some("FR".to_string()), None];
    enrich_view_countries(&mut items, &geo, None);
    assert_eq!(items[0].country, "unknown");
    assert_eq!(items[1].country, "");
    assert!(country_is_missing("unknown"));
    assert!(!country_is_missing("DE"));
}

#[test]
fn address_fields_are_filled_when_missing() {
    let mut country = "??".to_string();
    let mut as_name = "unknown".to_string();
    enrich_ip_history_fields(&mut country, &mut as_name, Some("FR".to_string()), Some("OVH".to_string()));
    assert_eq!((country.as_str(), as_name.as_str()), ("FR", "OVH"));
    let mut country = "DE".to_string();
    let mut as_name = "".to_string();
    enrich_ip_history_fields(&mut country, &mut as_name, Some("FR".to_string()), None);
    assert_eq!((country.as_str(), as_name.as_str()), ("DE", ""));
}
