use crowdsec_map::config::Config;
use crowdsec_map::security_report::{
    build_email_subject, build_security_summary, clean_behavior_label, delivery_step,
    format_date_range_for_last_7_days, normalize_domain_link, parse_email_recipients,
    redact_smtp_username, should_send_on_weekday, smtp_failure_message,
    substitute_email_subject_template, summarize_behaviors, transport_mode, weekly_report_decision,
    AlertSummary, DeliveryStep, ReportSkip, TransportMode, WeeklyDecision, MONDAY,
};
use crowdsec_map::time::UtcTime;

fn utc(text: &str) -> UtcTime {
    let dt = chrono::DateTime::parse_from_rfc3339(text).unwrap();
    UtcTime { secs: dt.timestamp(), nanos: dt.timestamp_subsec_nanos() }
}

fn alert(id: &str, scenario: &str, ip: &str, country: &str, count: i64) -> AlertSummary {
    AlertSummary {
        id: id.to_string(),
        scenario: scenario.to_string(),
        ip: ip.to_string(),
        country: country.to_string(),
        count,
    }
}

#[test]
fn weekly_summary_counts_total_attacks_and_top_behaviors() {
    let payload = vec![
        alert("a1", "crowdsecurity/http-scan", "1.1.1.1", "US", 19_800),
        alert("a2", "crowdsecurity/http-exploit", "2.2.2.2", "DE", 19_100),
        alert("a3", "crowdsecurity/http-crawl", "3.3.3.3", "FR", 16_800),
    ];

    let summary =
        build_security_summary(&payload, "https://map.example.com", "2026-09-14T09:00:00+00:00");
    assert_eq!(summary.total_attacks, 55_700);
    assert_eq!(summary.top_behaviors.len(), 3);
    assert_eq!(summary.top_behaviors[0].label, "HTTP Scan");
    assert_eq!(summary.link, "https://map.example.com");
}

#[test]
fn monday_detection_uses_local_weekday() {
    let dt = utc("2026-09-14T09:00:00+00:00");
    assert!(should_send_on_weekday(&dt, MONDAY));
    assert!(!should_send_on_weekday(&dt, 1));
}

#[test]
fn email_subject_uses_public_ip_and_report_date_range() {
    let public_ip = "203.0.113.42";
    let subject = substitute_email_subject_template(
        "Security Report for {{pub ip}} account: {{date_range}}",
        public_ip,
        "Sep 07 - Sep 14, 2026",
    );
    assert_eq!(
        subject,
        "Security Report for 203.0.113.42 account: Sep 07 - Sep 14, 2026"
    );
}

#[test]
fn email_recipient_list_supports_multiple_addresses() {
    let recipients =
        parse_email_recipients("a@example.com, b@example.com; c@example.com\n d@example.com");
    assert_eq!(
        recipients,
        vec![
            "a@example.com",
            "b@example.com",
            "c@example.com",
            "d@example.com",
        ]
    );
}

fn config_with(vars: &[(&str, &str)]) -> Config {
    let vars: Vec<(String, String)> =
        vars.iter().map(|(k, v)| (k.to_string(), v.to_string())).collect();
    Config::from_env_vars(&vars)
}

#[test]
fn summary_keeps_the_five_largest_behaviours_in_order() {
    let rows: Vec<(String, i64)> = vec![
        ("crowdsecurity/ssh-bf".to_string(), 3),
        ("crowdsecurity/http-probing".to_string(), 9),
        ("crowdsecurity/http-crawl-non_statics".to_string(), 5),
        ("crowdsecurity/ssh-slow-bf".to_string(), 9),
        ("crowdsecurity/http-bad-user-agent".to_string(), 1),
        ("crowdsecurity/http-sensitive-files".to_string(), 2),
    ];
    let summary = summarize_behaviors(&rows, 5, "", "2026-01-01T00:00:00Z");
    assert_eq!(summary.total_attacks, 29);
    let labels: Vec<&str> = summary.top_behaviors.iter().map(|b| b.label.as_str()).collect();
    assert_eq!(
        labels,
        vec!["HTTP Probing", "SSH Slow Bf", "HTTP Crawl Non Statics", "SSH Bf", "HTTP Sensitive Files"]
    );
    assert_eq!(summary.link, "#");
    assert_eq!(summary.generated_at, "2026-01-01T00:00:00Z");
}

#[test]
fn behaviour_labels_are_readable() {
    assert_eq!(clean_behavior_label("crowdsecurity/http-cve-2021-41773"), "HTTP Cve 2021 41773");
    assert_eq!(clean_behavior_label("  crowdsecurity/ssh_bf  "), "SSH Bf");
    assert_eq!(clean_behavior_label("custom/api-json-abuse"), "Custom/api JSON Abuse");
    assert_eq!(clean_behavior_label(""), "");
}

#[test]
fn domain_links_get_one_https_scheme_and_no_trailing_slash() {
    assert_eq!(normalize_domain_link("   "), "#");
    assert_eq!(normalize_domain_link("map.example.com/"), "https://map.example.com");
    assert_eq!(normalize_domain_link("http://map.example.com//"), "https://map.example.com");
    assert_eq!(normalize_domain_link("https://https://x.org"), "https://x.org");
    assert_eq!(normalize_domain_link("https://http://x.org/"), "http://x.org");
}

#[test]
fn smtp_user_names_are_redacted() {
    assert_eq!(redact_smtp_username("  "), "<empty>");
    assert_eq!(redact_smtp_username("bob@example.com"), "bob***");
    assert_eq!(redact_smtp_username("alexander@example.com"), "alex***@example.com");
    assert_eq!(redact_smtp_username("postmaster"), "post***");
}

#[test]
fn subject_falls_back_to_default_wording() {
    let now = UtcTime { secs: 1_789_376_400, nanos: 0 };
    let default = config_with(&[]);
    let subject = build_email_subject(&default, "203.0.113.42", "2026-09-14T09:00:00+00:00", &now)
        .unwrap();
    assert_eq!(subject, "Security Report for 203.0.113.42 account: Sep 07 - Sep 14, 2026");
    let custom = config_with(&[("EMAIL_SUBJECT", "Week {{range}} at {{publicIP}}")]);
    let subject = build_email_subject(&custom, "198.51.100.7", "not a date", &now).unwrap();
    assert_eq!(subject, "Week Sep 07 - Sep 14, 2026 at 198.51.100.7");
    let blank = config_with(&[("EMAIL_SUBJECT", "{{range}}")]);
    let subject = build_email_subject(&blank, "10.0.0.1", "2026-09-14T09:00:00Z", &now).unwrap();
    assert_eq!(subject, "Sep 07 - Sep 14, 2026");
}

#[test]
fn date_range_covers_the_week_before() {
    let now = UtcTime { secs: 0, nanos: 0 };
    assert_eq!(
        format_date_range_for_last_7_days("2026-03-02T12:00:00+00:00", &now).unwrap(),
        "Feb 23 - Mar 02, 2026"
    );
    assert_eq!(
        format_date_range_for_last_7_days("garbage", &now).unwrap(),
        "Dec 25 - Jan 01, 1970"
    );
}

#[test]
fn weekly_report_is_due_on_mondays_once() {
    let monday = utc("2026-09-14T09:00:00+00:00");
    let tuesday = utc("2026-09-15T09:00:00+00:00");
    let on = config_with(&[
        ("EMAIL_ENABLED", "true"),
        ("SMTP_HOST", "smtp.example.com"),
        ("EMAIL_TO", "ops@example.com"),
    ]);
    match weekly_report_decision(&on, &monday, None) {
        WeeklyDecision::Send { today } => assert_eq!(today, "2026-09-14"),
        _ => panic!("report should be due"),
    }
    assert!(matches!(
        weekly_report_decision(&on, &monday, Some(" 2026-09-14\n")),
        WeeklyDecision::Skip(ReportSkip::AlreadySent)
    ));
    assert!(matches!(
        weekly_report_decision(&on, &monday, Some("2026-09-07")),
        WeeklyDecision::Send { .. }
    ));
    assert!(matches!(
        weekly_report_decision(&on, &tuesday, None),
        WeeklyDecision::Skip(ReportSkip::NotMonday)
    ));
    let off = config_with(&[("SMTP_HOST", "smtp.example.com")]);
    assert!(matches!(
        weekly_report_decision(&off, &monday, None),
        WeeklyDecision::Skip(ReportSkip::Disabled)
    ));
    let incomplete = config_with(&[("EMAIL_ENABLED", "true"), ("EMAIL_TO", "ops@example.com")]);
    assert!(matches!(
        weekly_report_decision(&incomplete, &monday, None),
        WeeklyDecision::Skip(ReportSkip::Incomplete)
    ));
}

#[test]
fn delivery_retries_once_then_gives_up() {
    assert!(matches!(delivery_step(0, None), DeliveryStep::Delivered));
    match delivery_step(0, Some("timeout".to_string())) {
        DeliveryStep::RetryLater(e) => assert_eq!(e, "timeout"),
        _ => panic!("first failure should be retried"),
    }
    match delivery_step(1, Some("timeout".to_string())) {
        DeliveryStep::GiveUp(e) => assert_eq!(e, "mail send failed: timeout"),
        _ => panic!("second failure should stop"),
    }
}

#[test]
fn smtp_failures_explain_rejected_logins() {
    assert_eq!(
        smtp_failure_message("535 5.7.8 Authentication Failed"),
        "535 5.7.8 Authentication Failed. SMTP authentication was rejected; check SMTP_USERNAME and provider requirements."
    );
    assert_eq!(smtp_failure_message("connection refused"), "connection refused");
    assert!(matches!(transport_mode("starttls"), TransportMode::StartTls));
    assert!(matches!(transport_mode("SSL"), TransportMode::Tls));
    assert!(matches!(transport_mode("none"), TransportMode::Plain));
}

#[test]
fn domain_link_ignores_scheme_slash_and_spaces() {
    let expected = "https://map.example.com";
    assert_eq!(normalize_domain_link("map.example.com"), expected);
    assert_eq!(normalize_domain_link("http://map.example.com"), expected);
    assert_eq!(normalize_domain_link("https://map.example.com/"), expected);
    assert_eq!(normalize_domain_link("  https://map.example.com  "), expected);
}

#[test]
fn behavior_label_is_clean_and_stable() {
    let label = clean_behavior_label("crowdsecurity/http-bad_user--agent ssh");
    assert_eq!(label, "HTTP Bad User Agent SSH");
    assert_eq!(clean_behavior_label(&label), label);
    let plain = clean_behavior_label("  my_custom-scenario ");
    assert_eq!(plain, "My Custom Scenario");
    assert_eq!(clean_behavior_label(&plain), plain);
}
