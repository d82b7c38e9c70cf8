use crowdsec_map::investigation::{
    investigation_totals, log_line_page, order_log_sources, scan_source, split_lines, LogSource,
    SourceScan,
};
use crowdsec_map::parsers::LogPatterns;
use crowdsec_map::time::UtcTime;

fn since() -> UtcTime {
    UtcTime { secs: 1_767_571_200, nanos: 0 }
}

const LOG: &str = "[2026-01-05 10:15:00] 1.2.3.4 GET /a 403\r\n\
[2026-01-04 10:15:00] 1.2.3.4 GET /old 200\n\
1.2.3.4 GET /no-time 200\n\
[2026-01-05 11:00:00] 5.6.7.8 GET /b 200\n\
[2026-01-05 12:00:00] 1.2.3.4 GET /Admin 444 \n";

#[test]
fn lines_split_like_str_lines() {
    assert_eq!(split_lines("a\r\nb\n\nc"), vec!["a", "b", "", "c"]);
    assert_eq!(split_lines("a\n"), vec!["a"]);
    assert!(split_lines("").is_empty());
    assert_eq!(split_lines("x\ry"), vec!["x\ry"]);
}

#[test]
fn a_source_scan_counts_hits_and_samples() {
    let p = LogPatterns::new().unwrap();
    let s = scan_source(&p, LOG, "1.2.3.4", &since(), 2);
    assert_eq!(s.hits, 3);
    assert_eq!(s.forbidden, 2);
    assert_eq!(
        s.sampled,
        vec!["[2026-01-05 10:15:00] 1.2.3.4 GET /a 403", "1.2.3.4 GET /no-time 200"]
    );
    let long = format!("1.2.3.4 {}", "x".repeat(800));
    let s = scan_source(&p, &long, "1.2.3.4", &since(), 5);
    assert_eq!(s.sampled[0].chars().count(), 703);
    assert!(s.sampled[0].ends_with("..."));
}

#[test]
fn log_line_pages_filter_and_sort() {
    let p = LogPatterns::new().unwrap();
    let page = log_line_page(&p, LOG, "1.2.3.4", "", &since(), "all", "newest", 0, 2);
    assert_eq!(page.total_hits, 3);
    assert_eq!(page.total_forbidden, 2);
    assert_eq!(page.filtered_hits, 3);
    assert_eq!(page.lines.len(), 2);
    assert_eq!(page.lines[0].line, "[2026-01-05 12:00:00] 1.2.3.4 GET /Admin 444 ");
    assert_eq!(page.lines[0].timestamp, "2026-01-05T12:00:00+00:00");
    assert!(page.lines[0].forbidden);
    assert_eq!(page.lines[1].timestamp, "");
    assert_eq!(page.next_offset, Some(2));

    let only = log_line_page(&p, LOG, "1.2.3.4", "", &since(), "non-forbidden", "oldest", 0, 10);
    assert_eq!(only.filtered_hits, 1);
    assert_eq!(only.total_hits, 3);
    assert_eq!(only.lines[0].line, "1.2.3.4 GET /no-time 200");
    assert_eq!(only.next_offset, None);

    let searched = log_line_page(&p, LOG, "1.2.3.4", "ADMIN", &since(), "forbidden", "oldest", 0, 10);
    assert_eq!(searched.total_hits, 1);
    assert_eq!(searched.lines.len(), 1);
}

fn source(path: &str) -> LogSource {
    LogSource {
        name: path.rsplit('/').next().unwrap().to_string(),
        path: path.to_string(),
        location: "CrowdSec Map container".to_string(),
    }
}

#[test]
fn sources_list_current_files_first() {
    let found = vec![
        source("/logs/a.log.1.gz"),
        source("/logs/a.log"),
        source("/logs/b.log"),
        source("/logs/a.log"),
        source("/logs/a.log.2.gz"),
    ];
    let ordered = order_log_sources(&found);
    let paths: Vec<&str> = ordered.iter().map(|s| s.path.as_str()).collect();
    assert_eq!(paths, vec!["/logs/b.log", "/logs/a.log", "/logs/a.log.2.gz", "/logs/a.log.1.gz"]);
}

#[test]
fn totals_add_up_sources() {
    let scans = vec![
        SourceScan { hits: 3, forbidden: 1, sampled: vec![] },
        SourceScan { hits: 4, forbidden: 4, sampled: vec![] },
    ];
    assert_eq!(investigation_totals(&scans), (7, 5));
    assert_eq!(investigation_totals(&vec![]), (0, 0));
}
