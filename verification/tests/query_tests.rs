use crowdsec_map::os_tools::{public_ip_candidate, public_ip_providers, read_os_release_from};
use crowdsec_map::query::{
    DaysQuery, DecisionsQuery, GroupQuery, HistoryQuery, InvestigationLinesQuery,
    InvestigationQuery, SourceQuery,
};

fn s(v: &str) -> Option<String> {
    Some(v.to_string())
}

#[test]
fn query_defaults_and_bounds() {
    assert_eq!(SourceQuery { source: None }.source(), "auto");
    let d = DaysQuery { days: s("30"), offset: s("2000000"), limit: None };
    assert_eq!(d.history_days(), 30);
    assert_eq!(d.protection_days(), 7);
    assert_eq!(d.access_log_days(0), 1);
    assert_eq!(d.access_log_days(14), 14);
    assert_eq!(d.offset(), 1_000_000);
    assert_eq!(d.history_limit(), 50);
    let h = HistoryQuery { days: None, group_by: s("asn"), offset: None, limit: s("0") };
    assert_eq!((h.days(), h.group_by().as_str(), h.offset(), h.limit()), (7, "asn", 0, 1));
    let g = GroupQuery { days: None, group_by: None, label: None, offset: None, limit: None };
    assert_eq!((g.group_by().as_str(), g.label().as_str(), g.limit()), ("cidr24", "", 80));
    let q = DecisionsQuery { search: s("  SSH Bf "), sort: None, direction: s("desc"), offset: None, limit: s("1000") };
    assert_eq!((q.search().as_str(), q.sort().as_str(), q.descending(), q.limit()), ("ssh bf", "", true, 200));
    let i = InvestigationQuery { days: s("0"), max_lines: None };
    assert_eq!((i.days(), i.max_lines(50), i.max_lines(999)), (1, 50, 200));
    let l = InvestigationLinesQuery {
        days: None,
        path: None,
        offset: None,
        limit: None,
        filter: None,
        sort: None,
        search: s("Admin"),
    };
    assert_eq!((l.path().as_str(), l.limit(), l.filter().as_str(), l.sort().as_str(), l.search().as_str()), ("", 200, "all", "newest", "Admin"));
}

#[test]
fn os_release_values() {
    let text = "PRETTY_NAME=\"Debian GNU/Linux 12\"\nNAME=\"Debian GNU/Linux\"\nVERSION_ID=\"12\"\n";
    assert_eq!(read_os_release_from(text), ("Debian GNU/Linux".to_string(), "12".to_string()));
    assert_eq!(read_os_release_from(""), ("unknown".to_string(), "unknown".to_string()));
    assert_eq!(public_ip_providers().len(), 3);
    assert_eq!(public_ip_candidate(" 203.0.113.9\n"), "203.0.113.9");
}
