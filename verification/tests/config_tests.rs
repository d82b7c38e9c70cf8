use crowdsec_map::config::{env_bool, env_first, parse_list, Config};
use crowdsec_map::logger::{enabled, level_from_config, level_style, write_level, EventLevel, Level};

fn vars(pairs: &[(&str, &str)]) -> Vec<(String, String)> {
    pairs.iter().map(|(k, v)| (k.to_string(), v.to_string())).collect()
}

#[test]
fn lists_split_on_commas_semicolons_and_newlines() {
    assert_eq!(parse_list(" a ,b;;\n c \n"), vec!["a", "b", "c"]);
    assert!(parse_list(" , ; \n").is_empty());
    assert_eq!(parse_list("one"), vec!["one"]);
}

#[test]
fn defaults_apply_without_variables() {
    let c = Config::from_env_vars(&vec![]);
    assert_eq!(c.port, 8088);
    assert_eq!(c.data_source, "auto");
    assert!(!c.demo_mode);
    assert_eq!(c.attacks_cache_seconds, 5);
    assert_eq!(c.refresh_seconds, 30);
    assert_eq!(c.protection_refresh_seconds, 3600);
    assert_eq!(c.lapi_url, "http://127.0.0.1:8080");
    assert_eq!(c.cti_cache_hours, 72);
    assert_eq!(c.cti_api_url, "https://cti.api.crowdsec.net/v2");
    assert_eq!(c.history_retention_days, 90);
    assert_eq!(c.investigation_max_lines, 50);
    assert_eq!(c.investigation_log_paths.len(), 4);
    assert_eq!(c.protection_log_paths, vec!["/var/log/zoraxy/*.log*", "/opt/security-stack/zoraxy/config/log/*.log*"]);
    assert_eq!(c.smtp_port, 587);
    assert_eq!(c.smtp_encryption, "STARTTLS");
    assert_eq!(c.email_from, "security@localhost");
    assert_eq!(c.email_subject, "Security Report for {{pub ip}} account: {{date_range}}");
    assert_eq!(c.geoip_database_file, "/app/data/dbip-country.mmdb");
    assert_eq!(c.asnip_database_file, "/app/data/dbip-asn.mmdb");
    assert!(c.email_recipients.is_empty());
}

#[test]
fn variables_override_defaults() {
    let c = Config::from_env_vars(&vars(&[
        ("PORT", "9000"),
        ("DEMO_MODE", "Yes"),
        ("EMAIL_SMTP_PORT", "2525"),
        ("MAIL_HOST", "mail.example.com"),
        ("SMTP_ENCRYPTION", "ssl"),
        ("EMAIL_TO", "a@x.org; b@x.org"),
        ("GEOIP_DATABASE_DIR", "/geo"),
        ("REFRESH_SECONDS", "not-a-number"),
        ("PROTECTION_LOG_PATHS", "/a.log\n/b.log"),
    ]));
    assert_eq!(c.port, 9000);
    assert!(c.demo_mode);
    assert_eq!(c.smtp_port, 2525);
    assert_eq!(c.smtp_host, "mail.example.com");
    assert_eq!(c.smtp_encryption, "SSL");
    assert_eq!(c.email_recipients, vec!["a@x.org", "b@x.org"]);
    assert_eq!(c.geoip_database_file, "/geo/dbip-country.mmdb");
    assert_eq!(c.refresh_seconds, 30);
    assert_eq!(c.protection_log_paths, vec!["/a.log", "/b.log"]);
}

#[test]
fn flags_and_first_names() {
    let v = vars(&[("A", "ON"), ("B", "0"), ("Y", "second"), ("X", "first")]);
    assert!(env_bool(&v, "A", false));
    assert!(!env_bool(&v, "B", true));
    assert!(env_bool(&v, "C", true));
    assert_eq!(env_first(&v, &vec!["X", "Y"], "none"), "first");
    assert_eq!(env_first(&v, &vec!["Z", "Y"], "none"), "second");
    assert_eq!(env_first(&v, &vec!["Z"], "none"), "none");
}

#[test]
fn log_levels_filter_messages() {
    assert!(matches!(level_from_config("DEBUG"), Level::Debug));
    assert!(matches!(level_from_config("warning"), Level::Warn));
    assert!(matches!(level_from_config("errors only"), Level::Error));
    assert!(matches!(level_from_config("chatty"), Level::Info));
    assert!(enabled(Level::Info, Level::Error));
    assert!(!enabled(Level::Info, Level::Warn));
    assert!(!enabled(Level::Error, Level::Debug));
    assert!(enabled(Level::Error, Level::Warn));
    assert!(enabled(Level::Debug, Level::Debug));
    assert!(matches!(write_level("WARN"), Level::Warn));
    assert!(matches!(write_level("anything"), Level::Info));
    assert_eq!(level_style(EventLevel::Warn), ("WARN", "\x1b[33m"));
    assert_eq!(level_style(EventLevel::Trace), ("TRACE", "\x1b[35m"));
}
