//! Running `cscli` inside the CrowdSec container: the commands, the steps of
//! one exec session (create, start, read the output, inspect), and what
//! its output is taken to mean.

use vstd::prelude::*;
use vstd::utf8::{decode_utf8, valid_utf8};
use crate::json::JsonValue;
use crate::models::{ActiveBan, Alert};
use crate::normaliser::{
    alert_fields, alert_items, decision_items, kept_indices, normalize_alert_payload,
    normalize_decisions_as_bans, ban_fields,
};
use crate::text::{concat2, join, join_strings, strings_view, to_owned_string, trim, trim_str};

verus! {

/// The arguments of `cscli alerts list` as JSON, without a limit.
pub fn cscli_alerts_args() -> (r: Vec<String>)
    ensures
        strings_view(r@) == seq![
            "cscli"@,
            "alerts"@,
            "list"@,
            "-o"@,
            "json"@,
            "--limit"@,
            "0"@,
        ],
{
    let r = vec![
        to_owned_string("cscli"),
        to_owned_string("alerts"),
        to_owned_string("list"),
        to_owned_string("-o"),
        to_owned_string("json"),
        to_owned_string("--limit"),
        to_owned_string("0"),
    ];
    assert(strings_view(r@) =~= seq![
        "cscli"@,
        "alerts"@,
        "list"@,
        "-o"@,
        "json"@,
        "--limit"@,
        "0"@,
    ]);
    r
}

/// The arguments of `cscli decisions list` as JSON, without a limit.
pub fn cscli_decisions_args() -> (r: Vec<String>)
    ensures
        strings_view(r@) == seq![
            "cscli"@,
            "decisions"@,
            "list"@,
            "-o"@,
            "json"@,
            "--limit"@,
            "0"@,
        ],
{
    let r = vec![
        to_owned_string("cscli"),
        to_owned_string("decisions"),
        to_owned_string("list"),
        to_owned_string("-o"),
        to_owned_string("json"),
        to_owned_string("--limit"),
        to_owned_string("0"),
    ];
    assert(strings_view(r@) =~= seq![
        "cscli"@,
        "decisions"@,
        "list"@,
        "-o"@,
        "json"@,
        "--limit"@,
        "0"@,
    ]);
    r
}

/// The arguments of `cscli alerts list` for one address, in readable form.
pub fn cscli_ip_details_args(ip: &str) -> (r: Vec<String>)
    ensures
        strings_view(r@) == seq![
            "cscli"@,
            "alerts"@,
            "list"@,
            "-o"@,
            "human"@,
            "--ip"@,
            ip@,
            "--limit"@,
            "0"@,
        ],
{
    let r = vec![
        to_owned_string("cscli"),
        to_owned_string("alerts"),
        to_owned_string("list"),
        to_owned_string("-o"),
        to_owned_string("human"),
        to_owned_string("--ip"),
        to_owned_string(ip),
        to_owned_string("--limit"),
        to_owned_string("0"),
    ];
    assert(strings_view(r@) =~= seq![
        "cscli"@,
        "alerts"@,
        "list"@,
        "-o"@,
        "human"@,
        "--ip"@,
        ip@,
        "--limit"@,
        "0"@,
    ]);
    r
}

/// The command as written in logs and replies: the arguments joined with
/// spaces.
pub fn command_line(args: &Vec<String>) -> (r: String)
    ensures
        r@ == join(strings_view(args@), " "@),
{
    join_strings(args, " ")
}

/// Where an exec session stands.
pub enum ExecStage {
    /// The exec is being created.
    Create,
    /// The exec is being started.
    Start,
    /// Its output is being read.
    Read,
    /// Its exit status is being asked for.
    Inspect,
    Done,
}

/// What the container engine answered.
pub enum ExecEvent {
    Created,
    CreateFailed(String),
    /// Started, with the output attached.
    Started,
    StartFailed(String),
    /// Started without the output attached.
    Detached,
    Stdout(Vec<u8>),
    Stderr(Vec<u8>),
    /// Output on another stream, which is ignored.
    OtherOutput,
    ReadFailed(String),
    OutputEnded,
    /// The exit code, where the engine reported one.
    Inspected(Option<i64>),
    InspectFailed(String),
}

/// What to ask the container engine next.
pub enum ExecAction {
    StartExec,
    ReadOutput,
    InspectExec,
    Finish,
}

/// One `cscli` run.
pub struct ExecSession {
    pub stage: ExecStage,
    pub stdout: Vec<u8>,
    pub stderr: Vec<u8>,
    /// Why the run failed before it finished.
    pub failure: Option<String>,
    /// The exit code; -1 where none was reported.
    pub exit_code: i64,
}

/// The events that can come at a stage.
pub open spec fn event_fits(stage: ExecStage, e: ExecEvent) -> bool {
    match stage {
        ExecStage::Create => e is Created || e is CreateFailed,
        ExecStage::Start => e is Started || e is StartFailed || e is Detached,
        ExecStage::Read => e is Stdout || e is Stderr || e is OtherOutput || e is ReadFailed
            || e is OutputEnded,
        ExecStage::Inspect => e is Inspected || e is InspectFailed,
        ExecStage::Done => false,
    }
}

/// The run stops with `msg` as its failure, its output as it was.
pub open spec fn stops_with(old: ExecSession, new: ExecSession, msg: Seq<char>) -> bool {
    &&& new.stage is Done
    &&& new.stdout@ == old.stdout@
    &&& new.stderr@ == old.stderr@
    &&& new.exit_code == old.exit_code
    &&& new.failure matches Some(f) && f@ == msg
}

/// One step of a run: the next stage and action for an answer of the
/// engine. Output is collected as it comes; a failure ends the run with its
/// message.
pub open spec fn step_is(old: ExecSession, e: ExecEvent, new: ExecSession, a: ExecAction) -> bool {
    match e {
        ExecEvent::Created => new == ExecSession { stage: ExecStage::Start, ..old } && a
            is StartExec,
        ExecEvent::CreateFailed(m) => stops_with(old, new, "failed to create cscli exec: "@ + m@)
            && a is Finish,
        ExecEvent::Started => new == ExecSession { stage: ExecStage::Read, ..old } && a
            is ReadOutput,
        ExecEvent::StartFailed(m) => stops_with(old, new, "failed to start cscli exec: "@ + m@)
            && a is Finish,
        ExecEvent::Detached => stops_with(old, new, "cscli exec unexpectedly started in detached mode"@)
            && a is Finish,
        ExecEvent::Stdout(b) => new.stage is Read && new.stdout@ == old.stdout@ + b@
            && new.stderr@ == old.stderr@ && new.failure == old.failure && new.exit_code
            == old.exit_code && a is ReadOutput,
        ExecEvent::Stderr(b) => new.stage is Read && new.stdout@ == old.stdout@ && new.stderr@
            == old.stderr@ + b@ && new.failure == old.failure && new.exit_code == old.exit_code
            && a is ReadOutput,
        ExecEvent::OtherOutput => new == old && a is ReadOutput,
        ExecEvent::ReadFailed(m) => stops_with(old, new, "failed to read cscli output: "@ + m@)
            && a is Finish,
        ExecEvent::OutputEnded => new == ExecSession { stage: ExecStage::Inspect, ..old } && a
            is InspectExec,
        ExecEvent::Inspected(code) => new.stage is Done && new.stdout@ == old.stdout@
            && new.stderr@ == old.stderr@ && new.failure == old.failure && new.exit_code == match code {
            Some(c) => c,
            None => -1i64,
        } && a is Finish,
        ExecEvent::InspectFailed(m) => stops_with(old, new, "failed to inspect cscli exec: "@ + m@)
            && a is Finish,
    }
}

impl ExecSession {
    /// A run about to create its exec.
    pub fn new() -> (r: ExecSession)
        ensures
            r.stage is Create,
            r.stdout@.len() == 0,
            r.stderr@.len() == 0,
            r.failure is None,
            r.exit_code == -1,
    {
        ExecSession {
            stage: ExecStage::Create,
            stdout: Vec::new(),
            stderr: Vec::new(),
            failure: None,
            exit_code: -1,
        }
    }

    /// Takes in the engine's answer and says what to do next.
    pub fn step(&mut self, e: ExecEvent) -> (a: ExecAction)
        requires
            event_fits(old(self).stage, e),
        ensures
            step_is(*old(self), e, *final(self), a),
    {
        match e {
            ExecEvent::Created => {
                self.stage = ExecStage::Start;
                ExecAction::StartExec
            },
            ExecEvent::CreateFailed(m) => {
                self.stage = ExecStage::Done;
                self.failure = Some(concat2("failed to create cscli exec: ", m.as_str()));
                ExecAction::Finish
            },
            ExecEvent::Started => {
                self.stage = ExecStage::Read;
                ExecAction::ReadOutput
            },
            ExecEvent::StartFailed(m) => {
                self.stage = ExecStage::Done;
                self.failure = Some(concat2("failed to start cscli exec: ", m.as_str()));
                ExecAction::Finish
            },
            ExecEvent::Detached => {
                self.stage = ExecStage::Done;
                self.failure = Some(
                    to_owned_string("cscli exec unexpectedly started in detached mode"),
                );
                ExecAction::Finish
            },
            ExecEvent::Stdout(b) => {
                let mut b = b;
                self.stdout.append(&mut b);
                ExecAction::ReadOutput
            },
            ExecEvent::Stderr(b) => {
                let mut b = b;
                self.stderr.append(&mut b);
                ExecAction::ReadOutput
            },
            ExecEvent::OtherOutput => ExecAction::ReadOutput,
            ExecEvent::ReadFailed(m) => {
                self.stage = ExecStage::Done;
                self.failure = Some(concat2("failed to read cscli output: ", m.as_str()));
                ExecAction::Finish
            },
            ExecEvent::OutputEnded => {
                self.stage = ExecStage::Inspect;
                ExecAction::InspectExec
            },
            ExecEvent::Inspected(code) => {
                self.stage = ExecStage::Done;
                self.exit_code = match code {
                    Some(c) => c,
                    None => -1,
                };
                ExecAction::Finish
            },
            ExecEvent::InspectFailed(m) => {
                self.stage = ExecStage::Done;
                self.failure = Some(concat2("failed to inspect cscli exec: ", m.as_str()));
                ExecAction::Finish
            },
        }
    }

    /// The run finished and `cscli` exited with status 0.
    pub open spec fn succeeded(self) -> bool {
        self.stage is Done && self.failure is None && self.exit_code == 0
    }

    /// Whether the run finished and `cscli` exited with status 0.
    pub fn has_succeeded(&self) -> (r: bool)
        ensures
            r == self.succeeded(),
    {
        match self.stage {
            ExecStage::Done => self.failure.is_none() && self.exit_code == 0,
            _ => false,
        }
    }
}

/// `String::from_utf8`: the text that `bytes` encode, where they are valid
/// UTF-8, as std documents it.
#[verifier::external_body]
fn utf8_text(bytes: &Vec<u8>) -> (r: Option<String>)
    ensures
        r is Some <==> valid_utf8(bytes@),
        r matches Some(s) ==> s@ == decode_utf8(bytes@),
{
    String::from_utf8(bytes.clone()).ok()
}

/// What the readable details of an address are: the trimmed output where
/// `cscli` succeeded (empty if it is not UTF-8); otherwise the failure, or
/// the error output (`cscli failed` if it is not UTF-8).
pub open spec fn ip_details_of(s: ExecSession, command: Seq<char>) -> (Seq<char>, Seq<char>, Seq<char>) {
    match s.failure {
        Some(f) => (Seq::empty(), command, f@),
        None => if s.exit_code == 0 {
            (
                trim(
                    if valid_utf8(s.stdout@) {
                        decode_utf8(s.stdout@)
                    } else {
                        Seq::empty()
                    },
                ),
                command,
                Seq::empty(),
            )
        } else {
            (
                Seq::empty(),
                command,
                if valid_utf8(s.stderr@) {
                    decode_utf8(s.stderr@)
                } else {
                    "cscli failed"@
                },
            )
        },
    }
}

/// The details of an address from a finished run: (text, command line,
/// error).
pub fn ip_details_result(s: &ExecSession, command: &str) -> (r: (String, String, String))
    requires
        s.stage is Done,
    ensures
        (r.0@, r.1@, r.2@) == ip_details_of(*s, command@),
{
    proof {
        reveal_strlit("");
        assert(""@ =~= Seq::<char>::empty());
    }
    match &s.failure {
        Some(f) => (String::new(), to_owned_string(command), to_owned_string(f.as_str())),
        None => {
            if s.exit_code == 0 {
                let text = match utf8_text(&s.stdout) {
                    Some(t) => trim_str(t.as_str()),
                    None => trim_str(""),
                };
                (text, to_owned_string(command), String::new())
            } else {
                let err = match utf8_text(&s.stderr) {
                    Some(t) => t,
                    None => to_owned_string("cscli failed"),
                };
                (String::new(), to_owned_string(command), err)
            }
        },
    }
}

/// Why `cscli` cannot be run, where it cannot: there is no Docker engine,
/// or no CrowdSec container is configured.
pub fn cscli_unavailable_reason(docker_available: bool, container: &str) -> (r: Option<String>)
    ensures
        !docker_available ==> (r matches Some(m) && m@ == "Docker is unavailable"@),
        docker_available && container@.len() == 0 ==> (r matches Some(m) && m@
            == "CrowdSec container is not configured"@),
        docker_available && container@.len() > 0 ==> r is None,
{
    if !docker_available {
        Some(to_owned_string("Docker is unavailable"))
    } else if container.is_empty() {
        Some(to_owned_string("CrowdSec container is not configured"))
    } else {
        None
    }
}

/// The details of an address when no run could be made: (text, command
/// line, error), all but the error empty.
pub fn ip_details_unavailable(reason: &str) -> (r: (String, String, String))
    ensures
        r.0@.len() == 0 && r.1@.len() == 0 && r.2@ == reason@,
{
    (String::new(), String::new(), to_owned_string(reason))
}

/// Alerts from `cscli alerts list`: present only where the run succeeded
/// and its output read as JSON (`payload`).
pub fn cscli_alerts_result(s: &ExecSession, payload: Option<&JsonValue>, now: &str) -> (r: Option<
    Vec<Alert>,
>)
    ensures
        !s.succeeded() || payload is None ==> r is None,
        s.succeeded() && payload is Some ==> (r matches Some(v) && ({
            let p = *payload.unwrap();
            let idx = kept_indices(alert_items(p));
            &&& v.len() == idx.len()
            &&& forall|j: int|
                0 <= j < v.len() ==> alert_fields(
                    #[trigger] v@[j],
                    alert_items(p)[idx[j]],
                    idx[j] as nat,
                    "cscli"@,
                    now@,
                )
        })),
{
    if !s.has_succeeded() {
        return None;
    }
    match payload {
        Some(p) => Some(normalize_alert_payload(p, "cscli", now)),
        None => None,
    }
}

/// Decisions from `cscli decisions list`: present only where the run
/// succeeded and its output read as JSON (`payload`).
pub fn cscli_decisions_result(s: &ExecSession, payload: Option<&JsonValue>) -> (r: Option<
    Vec<ActiveBan>,
>)
    ensures
        !s.succeeded() || payload is None ==> r is None,
        s.succeeded() && payload is Some ==> (r matches Some(v) && ({
            let p = *payload.unwrap();
            &&& v.len() == decision_items(p).len()
            &&& forall|j: int|
                0 <= j < v.len() ==> ban_fields(#[trigger] v@[j], decision_items(p)[j], j as nat)
        })),
{
    if !s.has_succeeded() {
        return None;
    }
    match payload {
        Some(p) => Some(normalize_decisions_as_bans(p)),
        None => None,
    }
}

} // verus!
