//! Runtime configuration read from the process environment.

use vstd::prelude::*;
use crate::json::unwrap_or;
use crate::normaliser::{join_path, path_join};
use crate::text::{
    chars_of, keep_trimmed, parse_unsigned, parse_unsigned_bounded, split_at_any, split_by,
    str_eq, str_to_lowercase, str_to_uppercase, strings_view, to_owned_string, trimmed_nonempty,
    unicode_lowercase, unicode_uppercase, in_set, trim,
};

verus! {

/// The settings of the service.
pub struct Config {
    pub port: u16,
    pub data_source: String,
    pub demo_mode: bool,
    pub attacks_cache_seconds: u64,
    pub refresh_seconds: u64,
    pub protection_refresh_seconds: u64,
    pub static_dir: String,
    pub crowdsec_container: String,
    pub lapi_url: String,
    pub lapi_login: String,
    pub lapi_password: String,
    pub lapi_api_key: String,
    pub lapi_credentials_file: String,
    pub lapi_limit: usize,
    pub demo_snapshot_file: String,
    pub history_database_file: String,
    pub geoip_database_file: String,
    pub asnip_database_file: String,
    pub history_retention_days: u64,
    pub cti_api_key: String,
    pub cti_api_url: String,
    pub cti_cache_file: String,
    pub cti_cache_hours: u64,
    pub investigation_log_paths: Vec<String>,
    pub investigation_max_lines: usize,
    pub investigation_timeout_ms: u64,
    pub protection_log_paths: Vec<String>,
    pub access_log_enabled: bool,
    pub access_log_file: String,
    pub access_log_retention_days: u64,
    pub email_enabled: bool,
    pub smtp_host: String,
    pub smtp_port: u16,
    pub smtp_username: String,
    pub smtp_password: String,
    pub smtp_encryption: String,
    pub email_from: String,
    pub email_to: String,
    pub email_subject: String,
    pub crowdsec_map_domain: String,
    pub email_recipients: Vec<String>,
}

/// A list separator: newline, comma or semicolon.
pub open spec fn is_list_separator(c: char) -> bool {
    c == '\n' || c == ',' || c == ';'
}

/// The trimmed, non-empty entries of a list written with newlines, commas
/// or semicolons between them.
pub open spec fn list_items(value: Seq<char>) -> Seq<Seq<char>> {
    keep_trimmed(split_by(value, |c: char| is_list_separator(c)))
}

/// Every entry of a list setting is non-empty, has no white space at either
/// end and holds no newline, comma or semicolon, so that reading an entry as
/// a list setting gives it back alone.
pub proof fn list_entries_are_clean(value: Seq<char>)
    ensures
        forall|i: int|
            0 <= i < list_items(value).len() ==> {
                let e = #[trigger] list_items(value)[i];
                &&& e.len() > 0
                &&& trim(e) == e
                &&& forall|j: int| 0 <= j < e.len() ==> !is_list_separator(e[j])
                &&& list_items(e) == seq![e]
            },
{
    let sep = |c: char| is_list_separator(c);
    let parts = split_by(value, sep);
    crate::text::lemma_keep_trimmed_from(parts);
    crate::text::lemma_split_by_pieces(value, sep);
    assert forall|i: int| 0 <= i < list_items(value).len() implies {
        let e = #[trigger] list_items(value)[i];
        &&& e.len() > 0
        &&& trim(e) == e
        &&& forall|j: int| 0 <= j < e.len() ==> !is_list_separator(e[j])
        &&& list_items(e) == seq![e]
    } by {
        let e = list_items(value)[i];
        let p = choose|p: int| 0 <= p < parts.len() && keep_trimmed(parts)[i] == trim(parts[p]);
        crate::text::lemma_trim_piece(parts[p]);
        let (lo, hi) = choose|lo: int, hi: int|
            0 <= lo <= hi <= parts[p].len() && trim(parts[p]) == parts[p].subrange(lo, hi);
        assert forall|j: int| 0 <= j < e.len() implies !is_list_separator(e[j]) by {
            assert(e[j] == parts[p][lo + j]);
            assert(!sep(parts[p][lo + j]));
        }
        crate::text::lemma_trim_idempotent(parts[p]);
        assert forall|j: int| 0 <= j < e.len() implies !sep(#[trigger] e[j]) by {
            assert(!is_list_separator(e[j]));
        }
        crate::text::lemma_split_by_whole(e, sep);
        let single = seq![e];
        assert(e == trim(parts[p]));
        assert(trim(e) == e);
        assert(e.len() > 0);
        assert(single.drop_last() =~= Seq::<Seq<char>>::empty());
        assert(single.last() == e);
        assert(keep_trimmed(single.drop_last()) =~= Seq::<Seq<char>>::empty());
        assert(keep_trimmed(single) =~= Seq::<Seq<char>>::empty().push(e));
        assert(keep_trimmed(single) =~= seq![e]);
    }
}

/// Splits a list setting into its entries.
pub fn parse_list(value: &str) -> (r: Vec<String>)
    ensures
        strings_view(r@) == list_items(value@),
{
    let v = chars_of(value);
    let seps = vec!['\n', ',', ';'];
    let parts = split_at_any(&v, &seps);
    proof {
        assert((|c: char| in_set(seps@, c)) =~= (|c: char| is_list_separator(c))) by {
            assert forall|c: char| in_set(seps@, c) == is_list_separator(c) by {
                if c == '\n' {
                    assert(seps@[0] == c);
                }
                if c == ',' {
                    assert(seps@[1] == c);
                }
                if c == ';' {
                    assert(seps@[2] == c);
                }
            }
        }
    }
    trimmed_nonempty(&parts)
}

/// The value of the variable `name` in `vars` (the first one so named), as
/// `std::env::var` reads it.
pub open spec fn env_var(vars: Seq<(String, String)>, name: Seq<char>) -> Option<Seq<char>>
    decreases vars.len(),
{
    if vars.len() == 0 {
        None
    } else if vars[0].0@ == name {
        Some(vars[0].1@)
    } else {
        env_var(vars.drop_first(), name)
    }
}

/// Looks a variable up.
pub fn lookup_env<'a>(vars: &'a Vec<(String, String)>, name: &str) -> (r: Option<&'a String>)
    ensures
        match r {
            Some(v) => env_var(vars@, name@) == Some(v@),
            None => env_var(vars@, name@) is None,
        },
{
    let mut i: usize = 0;
    assert(vars@.skip(0) =~= vars@);
    while i < vars.len()
        invariant
            i <= vars.len(),
            env_var(vars@, name@) == env_var(vars@.skip(i as int), name@),
        decreases vars.len() - i,
    {
        assert(vars@.skip(i as int).drop_first() =~= vars@.skip(i + 1));
        assert(vars@.skip(i as int)[0] == vars@[i as int]);
        if str_eq(vars[i].0.as_str(), name) {
            return Some(&vars[i].1);
        }
        i = i + 1;
    }
    None
}

/// A yes/no setting: `1`, `true`, `yes` or `on` in any case mean yes, any
/// other value means no, and an unset variable gives `fallback`.
pub open spec fn env_flag(vars: Seq<(String, String)>, name: Seq<char>, fallback: bool) -> bool {
    match env_var(vars, name) {
        Some(v) => {
            let l = unicode_lowercase(v);
            l == "1"@ || l == "true"@ || l == "yes"@ || l == "on"@
        },
        None => fallback,
    }
}

pub fn env_bool(vars: &Vec<(String, String)>, name: &str, fallback: bool) -> (r: bool)
    ensures
        r == env_flag(vars@, name@, fallback),
{
    match lookup_env(vars, name) {
        Some(v) => {
            let l = str_to_lowercase(v.as_str());
            str_eq(l.as_str(), "1") || str_eq(l.as_str(), "true") || str_eq(l.as_str(), "yes")
                || str_eq(l.as_str(), "on")
        },
        None => fallback,
    }
}

/// The value of the first of `names` that is set, else `fallback`.
pub open spec fn env_first_value(
    vars: Seq<(String, String)>,
    names: Seq<Seq<char>>,
    fallback: Seq<char>,
) -> Seq<char>
    decreases names.len(),
{
    if names.len() == 0 {
        fallback
    } else {
        match env_var(vars, names[0]) {
            Some(v) => v,
            None => env_first_value(vars, names.drop_first(), fallback),
        }
    }
}

/// The views of a list of names.
pub open spec fn names_view(names: Seq<&str>) -> Seq<Seq<char>> {
    names.map_values(|n: &str| n@)
}

pub fn env_first(vars: &Vec<(String, String)>, names: &Vec<&str>, fallback: &str) -> (r: String)
    ensures
        r@ == env_first_value(vars@, names_view(names@), fallback@),
{
    let ghost all = names_view(names@);
    let mut i: usize = 0;
    assert(all.skip(0) =~= all);
    while i < names.len()
        invariant
            i <= names.len(),
            all == names_view(names@),
            env_first_value(vars@, all, fallback@) == env_first_value(
                vars@,
                all.skip(i as int),
                fallback@,
            ),
        decreases names.len() - i,
    {
        assert(all.skip(i as int)[0] == names@[i as int]@);
        assert(all.skip(i as int).drop_first() =~= all.skip(i + 1));
        if let Some(v) = lookup_env(vars, names[i]) {
            return to_owned_string(v.as_str());
        }
        i = i + 1;
    }
    to_owned_string(fallback)
}

/// A number setting: the value when it parses as an unsigned number no
/// greater than `max`, else `fallback`.
pub open spec fn env_number(
    vars: Seq<(String, String)>,
    name: Seq<char>,
    fallback: nat,
    max: nat,
) -> nat {
    match env_var(vars, name) {
        Some(v) => match parse_unsigned(v, max) {
            Some(n) => n,
            None => fallback,
        },
        None => fallback,
    }
}

pub fn env_parse_u64(vars: &Vec<(String, String)>, name: &str, fallback: u64) -> (r: u64)
    ensures
        r as nat == env_number(vars@, name@, fallback as nat, u64::MAX as nat),
{
    match lookup_env(vars, name) {
        Some(v) => match parse_unsigned_bounded(v.as_str(), u64::MAX) {
            Some(n) => n,
            None => fallback,
        },
        None => fallback,
    }
}

pub fn env_parse_u16(vars: &Vec<(String, String)>, name: &str, fallback: u16) -> (r: u16)
    ensures
        r as nat == env_number(vars@, name@, fallback as nat, u16::MAX as nat),
{
    match lookup_env(vars, name) {
        Some(v) => match parse_unsigned_bounded(v.as_str(), u16::MAX as u64) {
            Some(n) => n as u16,
            None => fallback,
        },
        None => fallback,
    }
}

pub fn env_parse_usize(vars: &Vec<(String, String)>, name: &str, fallback: usize) -> (r: usize)
    ensures
        r as nat == env_number(vars@, name@, fallback as nat, usize::MAX as nat),
{
    match lookup_env(vars, name) {
        Some(v) => match parse_unsigned_bounded(v.as_str(), usize::MAX as u64) {
            Some(n) => n as usize,
            None => fallback,
        },
        None => fallback,
    }
}

/// A text setting with a default.
pub open spec fn env_text(vars: Seq<(String, String)>, name: Seq<char>, fallback: Seq<char>) -> Seq<
    char,
> {
    unwrap_or(env_var(vars, name), fallback)
}

pub fn env_string(vars: &Vec<(String, String)>, name: &str, fallback: &str) -> (r: String)
    ensures
        r@ == env_text(vars@, name@, fallback@),
{
    match lookup_env(vars, name) {
        Some(v) => to_owned_string(v.as_str()),
        None => to_owned_string(fallback),
    }
}

/// The log files searched by IP investigation when none are configured.
pub const DEFAULT_INVESTIGATION_LOG_PATHS: &'static str = "/var/log/zoraxy/*.log*,/opt/security-stack/zoraxy/config/log/*.log*,/opt/security-stack/authelia/config/authelia.log,/var/log/pveproxy/access.log";

/// The proxy logs read by the Protection view when none are configured.
pub const DEFAULT_PROTECTION_LOG_PATHS: &'static str = "/var/log/zoraxy/*.log*,/opt/security-stack/zoraxy/config/log/*.log*";

/// The default subject of the security report email.
pub const DEFAULT_EMAIL_SUBJECT: &'static str = "Security Report for {{pub ip}} account: {{date_range}}";

/// `Config::from_env` over the given variables, field by field.
pub open spec fn config_from(c: Config, vars: Seq<(String, String)>) -> bool {
    let geoip_dir = env_text(vars, "GEOIP_DATABASE_DIR"@, "/app/data"@);
    &&& c.port as nat == env_number(vars, "PORT"@, 8088, u16::MAX as nat)
    &&& c.data_source@ == env_text(vars, "DATA_SOURCE"@, "auto"@)
    &&& c.demo_mode == env_flag(vars, "DEMO_MODE"@, false)
    &&& c.attacks_cache_seconds as nat == env_number(vars, "ATTACKS_CACHE_SECONDS"@, 5, u64::MAX as nat)
    &&& c.refresh_seconds as nat == env_number(vars, "REFRESH_SECONDS"@, 30, u64::MAX as nat)
    &&& c.protection_refresh_seconds as nat == env_number(
        vars,
        "PROTECTION_REFRESH_SECONDS"@,
        3600,
        u64::MAX as nat,
    )
    &&& c.static_dir@ == env_text(vars, "STATIC_DIR"@, "dist"@)
    &&& c.crowdsec_container@ == env_text(vars, "CROWDSEC_CONTAINER"@, ""@)
    &&& c.lapi_url@ == env_text(vars, "LAPI_URL"@, "http://127.0.0.1:8080"@)
    &&& c.lapi_login@ == env_text(vars, "LAPI_LOGIN"@, ""@)
    &&& c.lapi_password@ == env_text(vars, "LAPI_PASSWORD"@, ""@)
    &&& c.lapi_api_key@ == env_text(vars, "LAPI_API_KEY"@, ""@)
    &&& c.lapi_credentials_file@ == env_text(
        vars,
        "LAPI_CREDENTIALS_FILE"@,
        "data/lapi-credentials.json"@,
    )
    &&& c.lapi_limit as nat == env_number(vars, "LAPI_LIMIT"@, 0, usize::MAX as nat)
    &&& c.demo_snapshot_file@ == env_text(
        vars,
        "DEMO_SNAPSHOT_FILE"@,
        "demo-data/demo-snapshot.json"@,
    )
    &&& c.history_database_file@ == env_text(vars, "HISTORY_DATABASE_FILE"@, "data/history.db"@)
    &&& c.geoip_database_file@ == path_join(geoip_dir, "dbip-country.mmdb"@)
    &&& c.asnip_database_file@ == path_join(geoip_dir, "dbip-asn.mmdb"@)
    &&& c.history_retention_days as nat == env_number(
        vars,
        "HISTORY_RETENTION_DAYS"@,
        90,
        u64::MAX as nat,
    )
    &&& c.cti_api_key@ == env_text(vars, "CTI_API_KEY"@, ""@)
    &&& c.cti_api_url@ == env_text(vars, "CTI_API_URL"@, "https://cti.api.crowdsec.net/v2"@)
    &&& c.cti_cache_file@ == env_text(vars, "CTI_CACHE_FILE"@, "data/cti-cache.json"@)
    &&& c.cti_cache_hours as nat == env_number(vars, "CTI_CACHE_HOURS"@, 72, u64::MAX as nat)
    &&& strings_view(c.investigation_log_paths@) == list_items(
        env_text(vars, "INVESTIGATION_LOG_PATHS"@, DEFAULT_INVESTIGATION_LOG_PATHS@),
    )
    &&& c.investigation_max_lines as nat == env_number(
        vars,
        "INVESTIGATION_MAX_LINES"@,
        50,
        usize::MAX as nat,
    )
    &&& c.investigation_timeout_ms as nat == env_number(
        vars,
        "INVESTIGATION_TIMEOUT_MS"@,
        30_000,
        u64::MAX as nat,
    )
    &&& strings_view(c.protection_log_paths@) == list_items(
        env_text(vars, "PROTECTION_LOG_PATHS"@, DEFAULT_PROTECTION_LOG_PATHS@),
    )
    &&& c.access_log_enabled == env_flag(vars, "ACCESS_LOG_ENABLED"@, false)
    &&& c.access_log_file@ == env_text(vars, "ACCESS_LOG_FILE"@, "data/access-log.jsonl"@)
    &&& c.access_log_retention_days as nat == env_number(
        vars,
        "ACCESS_LOG_RETENTION_DAYS"@,
        30,
        u64::MAX as nat,
    )
    &&& c.email_enabled == env_flag(vars, "EMAIL_ENABLED"@, false)
    &&& c.smtp_host@ == env_first_value(
        vars,
        seq!["SMTP_HOST"@, "EMAIL_SMTP_HOST"@, "EMAIL_HOST"@, "MAIL_HOST"@],
        ""@,
    )
    &&& c.smtp_port as nat == env_number(
        vars,
        "SMTP_PORT"@,
        env_number(
            vars,
            "EMAIL_SMTP_PORT"@,
            env_number(
                vars,
                "EMAIL_PORT"@,
                env_number(vars, "MAIL_PORT"@, 587, u16::MAX as nat),
                u16::MAX as nat,
            ),
            u16::MAX as nat,
        ),
        u16::MAX as nat,
    )
    &&& c.smtp_username@ == env_first_value(
        vars,
        seq!["SMTP_USERNAME"@, "EMAIL_SMTP_USERNAME"@, "EMAIL_USERNAME"@, "MAIL_USERNAME"@],
        ""@,
    )
    &&& c.smtp_password@ == env_first_value(
        vars,
        seq!["SMTP_PASSWORD"@, "EMAIL_SMTP_PASSWORD"@, "EMAIL_PASSWORD"@, "MAIL_PASSWORD"@],
        ""@,
    )
    &&& c.smtp_encryption@ == unicode_uppercase(
        env_first_value(
            vars,
            seq![
                "SMTP_ENCRYPTION"@,
                "EMAIL_SMTP_ENCRYPTION"@,
                "EMAIL_ENCRYPTION"@,
                "MAIL_ENCRYPTION"@,
            ],
            "STARTTLS"@,
        ),
    )
    &&& c.email_from@ == env_first_value(
        vars,
        seq!["EMAIL_FROM"@, "SMTP_FROM"@, "MAIL_FROM"@],
        "security@localhost"@,
    )
    &&& c.email_to@ == env_first_value(
        vars,
        seq!["EMAIL_TO"@, "SMTP_TO"@, "EMAIL_RECIPIENT"@, "MAIL_TO"@],
        ""@,
    )
    &&& c.email_subject@ == env_first_value(
        vars,
        seq!["EMAIL_SUBJECT"@, "SECURITY_REPORT_SUBJECT"@],
        DEFAULT_EMAIL_SUBJECT@,
    )
    &&& c.crowdsec_map_domain@ == env_first_value(
        vars,
        seq!["CROWDSEC_MAP_DOMAIN"@, "CROWDSEC_MAP_URL"@, "MAP_DOMAIN"@],
        ""@,
    )
    &&& strings_view(c.email_recipients@) == list_items(
        env_first_value(
            vars,
            seq!["EMAIL_TO_LIST"@, "EMAIL_RECIPIENTS"@, "SMTP_TO_LIST"@, "EMAIL_TO"@],
            ""@,
        ),
    )
}

fn first_of_names(vars: &Vec<(String, String)>, names: Vec<&str>, fallback: &str) -> (r: String)
    ensures
        r@ == env_first_value(vars@, names_view(names@), fallback@),
{
    env_first(vars, &names, fallback)
}

fn first_of4(vars: &Vec<(String, String)>, a: &str, b: &str, c: &str, d: &str, fallback: &str) -> (r:
    String)
    ensures
        r@ == env_first_value(vars@, seq![a@, b@, c@, d@], fallback@),
{
    let mut names: Vec<&str> = Vec::new();
    names.push(a);
    names.push(b);
    names.push(c);
    names.push(d);
    assert(names_view(names@) =~= seq![a@, b@, c@, d@]);
    first_of_names(vars, names, fallback)
}

fn first_of3(vars: &Vec<(String, String)>, a: &str, b: &str, c: &str, fallback: &str) -> (r: String)
    ensures
        r@ == env_first_value(vars@, seq![a@, b@, c@], fallback@),
{
    let mut names: Vec<&str> = Vec::new();
    names.push(a);
    names.push(b);
    names.push(c);
    assert(names_view(names@) =~= seq![a@, b@, c@]);
    first_of_names(vars, names, fallback)
}

fn first_of2(vars: &Vec<(String, String)>, a: &str, b: &str, fallback: &str) -> (r: String)
    ensures
        r@ == env_first_value(vars@, seq![a@, b@], fallback@),
{
    let mut names: Vec<&str> = Vec::new();
    names.push(a);
    names.push(b);
    assert(names_view(names@) =~= seq![a@, b@]);
    first_of_names(vars, names, fallback)
}

impl Config {
    /// The configuration that the variables `vars` (name, value) describe.
    pub fn from_env_vars(vars: &Vec<(String, String)>) -> (c: Config)
        ensures
            config_from(c, vars@),
    {
        let geoip_dir = env_string(vars, "GEOIP_DATABASE_DIR", "/app/data");
        let investigation = env_string(vars, "INVESTIGATION_LOG_PATHS", DEFAULT_INVESTIGATION_LOG_PATHS);
        let protection = env_string(vars, "PROTECTION_LOG_PATHS", DEFAULT_PROTECTION_LOG_PATHS);
        let smtp_host = first_of4(vars, "SMTP_HOST", "EMAIL_SMTP_HOST", "EMAIL_HOST", "MAIL_HOST", "");
        let smtp_port = env_parse_u16(
            vars,
            "SMTP_PORT",
            env_parse_u16(
                vars,
                "EMAIL_SMTP_PORT",
                env_parse_u16(vars, "EMAIL_PORT", env_parse_u16(vars, "MAIL_PORT", 587)),
            ),
        );
        let smtp_username = first_of4(vars, "SMTP_USERNAME", "EMAIL_SMTP_USERNAME", "EMAIL_USERNAME", "MAIL_USERNAME", "");
        let smtp_password = first_of4(vars, "SMTP_PASSWORD", "EMAIL_SMTP_PASSWORD", "EMAIL_PASSWORD", "MAIL_PASSWORD", "");
        let encryption = first_of4(vars, "SMTP_ENCRYPTION", "EMAIL_SMTP_ENCRYPTION", "EMAIL_ENCRYPTION", "MAIL_ENCRYPTION", "STARTTLS");
        let email_from = first_of3(vars, "EMAIL_FROM", "SMTP_FROM", "MAIL_FROM", "security@localhost");
        let email_to = first_of4(vars, "EMAIL_TO", "SMTP_TO", "EMAIL_RECIPIENT", "MAIL_TO", "");
        let email_subject = first_of2(vars, "EMAIL_SUBJECT", "SECURITY_REPORT_SUBJECT", DEFAULT_EMAIL_SUBJECT);
        let domain = first_of3(vars, "CROWDSEC_MAP_DOMAIN", "CROWDSEC_MAP_URL", "MAP_DOMAIN", "");
        let recipients = first_of4(vars, "EMAIL_TO_LIST", "EMAIL_RECIPIENTS", "SMTP_TO_LIST", "EMAIL_TO", "");
        let c = Config {
            port: env_parse_u16(vars, "PORT", 8088),
            data_source: env_string(vars, "DATA_SOURCE", "auto"),
            demo_mode: env_bool(vars, "DEMO_MODE", false),
            attacks_cache_seconds: env_parse_u64(vars, "ATTACKS_CACHE_SECONDS", 5),
            refresh_seconds: env_parse_u64(vars, "REFRESH_SECONDS", 30),
            protection_refresh_seconds: env_parse_u64(vars, "PROTECTION_REFRESH_SECONDS", 3600),
            static_dir: env_string(vars, "STATIC_DIR", "dist"),
            crowdsec_container: env_string(vars, "CROWDSEC_CONTAINER", ""),
            lapi_url: env_string(vars, "LAPI_URL", "http://127.0.0.1:8080"),
            lapi_login: env_string(vars, "LAPI_LOGIN", ""),
            lapi_password: env_string(vars, "LAPI_PASSWORD", ""),
            lapi_api_key: env_string(vars, "LAPI_API_KEY", ""),
            lapi_credentials_file: env_string(vars, "LAPI_CREDENTIALS_FILE", "data/lapi-credentials.json"),
            lapi_limit: env_parse_usize(vars, "LAPI_LIMIT", 0),
            demo_snapshot_file: env_string(vars, "DEMO_SNAPSHOT_FILE", "demo-data/demo-snapshot.json"),
            history_database_file: env_string(vars, "HISTORY_DATABASE_FILE", "data/history.db"),
            geoip_database_file: join_path(geoip_dir.as_str(), "dbip-country.mmdb"),
            asnip_database_file: join_path(geoip_dir.as_str(), "dbip-asn.mmdb"),
            history_retention_days: env_parse_u64(vars, "HISTORY_RETENTION_DAYS", 90),
            cti_api_key: env_string(vars, "CTI_API_KEY", ""),
            cti_api_url: env_string(vars, "CTI_API_URL", "https://cti.api.crowdsec.net/v2"),
            cti_cache_file: env_string(vars, "CTI_CACHE_FILE", "data/cti-cache.json"),
            cti_cache_hours: env_parse_u64(vars, "CTI_CACHE_HOURS", 72),
            investigation_log_paths: parse_list(investigation.as_str()),
            investigation_max_lines: env_parse_usize(vars, "INVESTIGATION_MAX_LINES", 50),
            investigation_timeout_ms: env_parse_u64(vars, "INVESTIGATION_TIMEOUT_MS", 30_000),
            protection_log_paths: parse_list(protection.as_str()),
            access_log_enabled: env_bool(vars, "ACCESS_LOG_ENABLED", false),
            access_log_file: env_string(vars, "ACCESS_LOG_FILE", "data/access-log.jsonl"),
            access_log_retention_days: env_parse_u64(vars, "ACCESS_LOG_RETENTION_DAYS", 30),
            email_enabled: env_bool(vars, "EMAIL_ENABLED", false),
            smtp_host,
            smtp_port,
            smtp_username,
            smtp_password,
            smtp_encryption: str_to_uppercase(encryption.as_str()),
            email_from,
            email_to,
            email_subject,
            crowdsec_map_domain: domain,
            email_recipients: parse_list(recipients.as_str()),
        };
        assert(config_from(c, vars@));
        c
    }
}

} // verus!
