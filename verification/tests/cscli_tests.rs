use crowdsec_map::cscli::{
    command_line, cscli_alerts_args, cscli_alerts_result, cscli_decisions_args,
    cscli_decisions_result, cscli_ip_details_args, cscli_unavailable_reason, ip_details_result,
    ip_details_unavailable,
    ExecAction, ExecEvent, ExecSession,
};
use crowdsec_map::json::JsonValue;

#[test]
fn commands_are_spelled_out() {
    assert_eq!(command_line(&cscli_alerts_args()), "cscli alerts list -o json --limit 0");
    assert_eq!(command_line(&cscli_decisions_args()), "cscli decisions list -o json --limit 0");
    assert_eq!(
        command_line(&cscli_ip_details_args("1.2.3.4")),
        "cscli alerts list -o human --ip 1.2.3.4 --limit 0"
    );
}

fn finished(code: Option<i64>, stdout: &[u8], stderr: &[u8]) -> ExecSession {
    let mut s = ExecSession::new();
    assert!(matches!(s.step(ExecEvent::Created), ExecAction::StartExec));
    assert!(matches!(s.step(ExecEvent::Started), ExecAction::ReadOutput));
    assert!(matches!(s.step(ExecEvent::Stdout(stdout.to_vec())), ExecAction::ReadOutput));
    assert!(matches!(s.step(ExecEvent::OtherOutput), ExecAction::ReadOutput));
    assert!(matches!(s.step(ExecEvent::Stderr(stderr.to_vec())), ExecAction::ReadOutput));
    assert!(matches!(s.step(ExecEvent::OutputEnded), ExecAction::InspectExec));
    assert!(matches!(s.step(ExecEvent::Inspected(code)), ExecAction::Finish));
    s
}

#[test]
fn a_successful_run_gives_its_trimmed_output() {
    let s = finished(Some(0), b"  table  \n", b"");
    assert!(s.has_succeeded());
    let r = ip_details_result(&s, "cmd");
    assert_eq!(r, ("table".to_string(), "cmd".to_string(), String::new()));
}

#[test]
fn a_failed_run_gives_its_error_output() {
    let s = finished(None, b"partial", b"boom");
    assert_eq!(s.exit_code, -1);
    assert!(!s.has_succeeded());
    assert_eq!(ip_details_result(&s, "cmd"), (String::new(), "cmd".to_string(), "boom".to_string()));
    let bad = finished(Some(2), b"", &[0xff, 0xfe]);
    assert_eq!(ip_details_result(&bad, "cmd").2, "cscli failed");
    let garbled = finished(Some(0), &[0xff], b"");
    assert_eq!(ip_details_result(&garbled, "cmd").0, "");
}

#[test]
fn failures_stop_the_run_with_a_message() {
    let mut s = ExecSession::new();
    assert!(matches!(s.step(ExecEvent::CreateFailed("no such container".to_string())), ExecAction::Finish));
    assert_eq!(
        ip_details_result(&s, "cmd"),
        (String::new(), "cmd".to_string(), "failed to create cscli exec: no such container".to_string())
    );
    let mut d = ExecSession::new();
    d.step(ExecEvent::Created);
    d.step(ExecEvent::Detached);
    assert_eq!(ip_details_result(&d, "c").2, "cscli exec unexpectedly started in detached mode");
    let u = ip_details_unavailable("Docker is unavailable");
    assert_eq!(u, (String::new(), String::new(), "Docker is unavailable".to_string()));
}

#[test]
fn json_results_need_a_successful_run() {
    let ok = finished(Some(0), b"[]", b"");
    let payload = JsonValue::Array(vec![JsonValue::Object(vec![
        ("value".to_string(), JsonValue::Str("1.2.3.4".to_string())),
        ("scenario".to_string(), JsonValue::Str("crowdsecurity/ssh-bf".to_string())),
    ])]);
    let alerts = cscli_alerts_result(&ok, Some(&payload), "NOW").unwrap();
    assert_eq!(alerts.len(), 1);
    assert_eq!(alerts[0].scenario, "ssh-bf");
    assert!(cscli_alerts_result(&ok, None, "NOW").is_none());
    let failed = finished(Some(1), b"[]", b"");
    assert!(cscli_alerts_result(&failed, Some(&payload), "NOW").is_none());
    let bans = cscli_decisions_result(&ok, Some(&payload)).unwrap();
    assert_eq!(bans[0].ip, "1.2.3.4");
    assert!(cscli_decisions_result(&failed, Some(&payload)).is_none());
}

#[test]
fn cscli_needs_docker_and_a_container() {
    assert_eq!(cscli_unavailable_reason(false, "crowdsec").as_deref(), Some("Docker is unavailable"));
    assert_eq!(
        cscli_unavailable_reason(true, "").as_deref(),
        Some("CrowdSec container is not configured")
    );
    assert_eq!(cscli_unavailable_reason(true, "crowdsec"), None);
}
