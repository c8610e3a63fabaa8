//! The control socket's protocol: what a request asks for, what is
//! answered, and the JSON of the status report.
use vstd::prelude::*;

use crate::events::{opt_text, DevxEvent};
use crate::text::{append_dec, append_str, contains_seq, contains_str, dec, joined, str_eq, views};

verus! {

/// The path of the instance's control socket, `/tmp/devx-{id}.sock`.
pub fn socket_path(project_name: &str) -> (r: String)
    ensures
        r@ == crate::daemon::instance_path(project_name@, ".sock"@),
{
    crate::daemon::instance_file(project_name, ".sock")
}

/// A request read from the control socket: `{"cmd": .., "service": ..}`.
#[derive(Debug)]
pub struct ControlCommand {
    pub cmd: String,
    pub service: Option<String>,
}

/// What a request asks the running instance to do.
#[derive(Debug)]
pub enum ControlAction {
    Shutdown,
    Restart(String),
    Status,
    /// `restart` without a `service` field.
    MissingService,
    Unknown,
}

/// `a` is the action of a request with command `cmd` and optional
/// `service`: `shutdown`, `restart` (which needs a service), `status`, or
/// anything else, which is unknown.
pub open spec fn is_action_of(a: ControlAction, cmd: Seq<char>, service: Option<Seq<char>>) -> bool {
    match a {
        ControlAction::Shutdown => cmd == "shutdown"@,
        ControlAction::Restart(s) => cmd == "restart"@ && service == Some(s@),
        ControlAction::MissingService => cmd == "restart"@ && service is None,
        ControlAction::Status => cmd == "status"@,
        ControlAction::Unknown => cmd != "shutdown"@ && cmd != "restart"@ && cmd != "status"@,
    }
}

/// Each request has one action: `shutdown` shuts down, `status` reports,
/// `restart` with a service restarts that service, `restart` without one
/// is refused as missing its service, and any other command is unknown.
pub proof fn lemma_one_action(a: ControlAction, cmd: Seq<char>, service: Option<Seq<char>>)
    requires
        is_action_of(a, cmd, service),
    ensures
        cmd == "shutdown"@ ==> a is Shutdown,
        cmd == "status"@ ==> a is Status,
        cmd == "restart"@ && service is Some ==> (a matches ControlAction::Restart(n) && n@
            == service->0),
        cmd == "restart"@ && service is None ==> a is MissingService,
        cmd != "shutdown"@ && cmd != "status"@ && cmd != "restart"@ ==> a is Unknown,
{
    reveal_strlit("shutdown");
    reveal_strlit("status");
    reveal_strlit("restart");
    assert("shutdown"@.len() == 8 && "restart"@.len() == 7 && "status"@.len() == 6);
}

/// The action a request asks for.
pub fn decide(req: &ControlCommand) -> (a: ControlAction)
    ensures
        is_action_of(a, req.cmd@, opt_text(req.service)),
{
    let cmd = req.cmd.as_str();
    if str_eq(cmd, "shutdown") {
        ControlAction::Shutdown
    } else if str_eq(cmd, "restart") {
        match &req.service {
            Some(s) => ControlAction::Restart(s.clone()),
            None => ControlAction::MissingService,
        }
    } else if str_eq(cmd, "status") {
        ControlAction::Status
    } else {
        ControlAction::Unknown
    }
}

/// The reply to an action, or none for `status` (whose reply is the status
/// report).
pub open spec fn reply_of(a: ControlAction) -> Option<Seq<char>> {
    match a {
        ControlAction::Shutdown => Some("{\"ok\":true}"@),
        ControlAction::Restart(_) => Some("{\"ok\":true}"@),
        ControlAction::Status => None,
        ControlAction::MissingService => Some("{\"error\":\"restart requires a 'service' field\"}"@),
        ControlAction::Unknown => Some("{\"error\":\"unknown command\"}"@),
    }
}

/// The line written back for an action (without the newline).
pub fn reply_for(a: &ControlAction) -> (r: Option<String>)
    ensures
        opt_text(r) == reply_of(*a),
{
    match a {
        ControlAction::Shutdown => Some("{\"ok\":true}".to_owned()),
        ControlAction::Restart(_) => Some("{\"ok\":true}".to_owned()),
        ControlAction::Status => None,
        ControlAction::MissingService => Some(
            "{\"error\":\"restart requires a 'service' field\"}".to_owned(),
        ),
        ControlAction::Unknown => Some("{\"error\":\"unknown command\"}".to_owned()),
    }
}

/// The event an action sends to the front end: a shutdown request or a
/// restart of the named service.
pub fn event_for(a: &ControlAction) -> (r: Option<DevxEvent>)
    ensures
        match *a {
            ControlAction::Shutdown => r == Some(DevxEvent::ControlShutdown),
            ControlAction::Restart(s) => r matches Some(DevxEvent::ControlRestart { service })
                && service@ == s@,
            _ => r is None,
        },
{
    match a {
        ControlAction::Shutdown => Some(DevxEvent::ControlShutdown),
        ControlAction::Restart(s) => Some(DevxEvent::ControlRestart { service: s.clone() }),
        _ => None,
    }
}

/// The reply to a line that is not a valid request, given the parser's
/// message: `{"error":"invalid json: <message>"}`.
pub fn invalid_json_reply(message: &str) -> (r: String)
    ensures
        r@ == "{\"error\":\"invalid json: "@ + message@ + "\"}"@,
{
    let mut s = "{\"error\":\"invalid json: ".to_owned();
    append_str(&mut s, message);
    append_str(&mut s, "\"}");
    s
}

/// Whether a reply from the instance reports success (it holds `"ok"`).
pub fn reply_ok(response: &str) -> (r: bool)
    ensures
        r == contains_seq(response@, "\"ok\""@),
{
    contains_str(response, "\"ok\"")
}

/// The error for a control request when no instance is listening:
/// `no running devx instance found for project '{id}' (socket {path} not found)`.
pub fn no_instance_message(project_name: &str, socket: &str) -> (r: String)
    ensures
        r@ == "no running devx instance found for project '"@ + project_name@ + "' (socket "@
            + socket@ + " not found)"@,
{
    let mut s = "no running devx instance found for project '".to_owned();
    append_str(&mut s, project_name);
    append_str(&mut s, "' (socket ");
    append_str(&mut s, socket);
    append_str(&mut s, " not found)");
    s
}

// ---------------------------------------------------------------------------
// The status report
// ---------------------------------------------------------------------------

/// The lowercase hexadecimal digit for `n < 16`.
pub open spec fn hex_digit(n: nat) -> char {
    if n < 10 {
        crate::text::digit_char(n)
    } else if n == 10 {
        'a'
    } else if n == 11 {
        'b'
    } else if n == 12 {
        'c'
    } else if n == 13 {
        'd'
    } else if n == 14 {
        'e'
    } else {
        'f'
    }
}

/// How one character is written inside a JSON string: `"` and `\` behind a
/// backslash, backspace, tab, line feed, form feed and carriage return as
/// `\b \t \n \f \r`, any other control character below U+0020 as
/// `\u00XX` with lowercase hex digits, and everything else unchanged.
pub open spec fn json_char(c: char) -> Seq<char> {
    if c == '"' {
        seq!['\\', '"']
    } else if c == '\\' {
        seq!['\\', '\\']
    } else if c == '\u{8}' {
        seq!['\\', 'b']
    } else if c == '\t' {
        seq!['\\', 't']
    } else if c == '\n' {
        seq!['\\', 'n']
    } else if c == '\u{c}' {
        seq!['\\', 'f']
    } else if c == '\r' {
        seq!['\\', 'r']
    } else if (c as u32) < 0x20 {
        seq![
            '\\',
            'u',
            '0',
            '0',
            hex_digit(((c as u32) / 16) as nat),
            hex_digit(((c as u32) % 16) as nat),
        ]
    } else {
        seq![c]
    }
}

/// The characters of `s`, each written as inside a JSON string.
pub open spec fn json_escaped(s: Seq<char>) -> Seq<char>
    decreases s.len(),
{
    if s.len() == 0 {
        Seq::empty()
    } else {
        json_escaped(s.drop_last()) + json_char(s.last())
    }
}

/// The JSON text of the string `s`: quoted, with its characters escaped.
pub open spec fn json_string(s: Seq<char>) -> Seq<char> {
    seq!['"'] + json_escaped(s) + seq!['"']
}

/// `serde_json::to_string` on a string slice (its `format_escaped_str`).
/// Trusted: the result is `json_string(s@)`, the quoted text with the
/// escapes of serde_json's table. Serializing a `str` into a buffer cannot
/// fail, so the error branch is never taken.
#[verifier::external_body]
fn json_quote(s: &str) -> (r: String)
    ensures
        r@ == json_string(s@),
{
    match serde_json::to_string(s) {
        Ok(t) => t,
        Err(_) => String::new(),
    }
}

/// One service's line in the status report.
#[derive(Debug)]
pub struct ServiceStatus {
    pub name: String,
    pub state: String,
    pub port: Option<u16>,
    pub proxy_port: Option<u16>,
    pub uptime_secs: Option<u64>,
}

/// A JSON number, or `null`.
pub open spec fn json_opt(n: Option<nat>) -> Seq<char> {
    match n {
        Some(v) => dec(v),
        None => "null"@,
    }
}

/// The JSON object of one service, keys in sorted order (as serde_json's
/// default map writes them).
pub open spec fn status_object(s: ServiceStatus) -> Seq<char> {
    "{\"name\":"@ + json_string(s.name@) + ",\"port\":"@ + json_opt(
        match s.port {
            Some(p) => Some(p as nat),
            None => None,
        },
    ) + ",\"proxy_port\":"@ + json_opt(
        match s.proxy_port {
            Some(p) => Some(p as nat),
            None => None,
        },
    ) + ",\"state\":"@ + json_string(s.state@) + ",\"uptime_secs\":"@ + json_opt(
        match s.uptime_secs {
            Some(u) => Some(u as nat),
            None => None,
        },
    ) + "}"@
}

/// The status report: `{"project":..,"services":[..]}`.
pub open spec fn status_report(project: Seq<char>, services: Seq<ServiceStatus>) -> Seq<char> {
    "{\"project\":"@ + json_string(project) + ",\"services\":["@ + joined(
        services.map_values(|s: ServiceStatus| status_object(s)),
        ","@,
    ) + "]}"@
}

fn append_json_opt(out: &mut String, n: Option<u64>)
    ensures
        final(out)@ == old(out)@ + json_opt(
            match n {
                Some(v) => Some(v as nat),
                None => None,
            },
        ),
{
    match n {
        Some(v) => append_dec(out, v),
        None => append_str(out, "null"),
    }
}

fn status_object_text(s: &ServiceStatus) -> (r: String)
    ensures
        r@ == status_object(*s),
{
    let mut out = "{\"name\":".to_owned();
    let name = json_quote(s.name.as_str());
    append_str(&mut out, name.as_str());
    append_str(&mut out, ",\"port\":");
    append_json_opt(
        &mut out,
        match s.port {
            Some(p) => Some(p as u64),
            None => None,
        },
    );
    append_str(&mut out, ",\"proxy_port\":");
    append_json_opt(
        &mut out,
        match s.proxy_port {
            Some(p) => Some(p as u64),
            None => None,
        },
    );
    append_str(&mut out, ",\"state\":");
    let state = json_quote(s.state.as_str());
    append_str(&mut out, state.as_str());
    append_str(&mut out, ",\"uptime_secs\":");
    append_json_opt(&mut out, s.uptime_secs);
    append_str(&mut out, "}");
    proof {
        assert(out@ =~= status_object(*s));
    }
    out
}

/// The JSON status report of the instance `project` with `services`.
pub fn status_json(project: &str, services: &Vec<ServiceStatus>) -> (r: String)
    ensures
        r@ == status_report(project@, services@),
{
    let mut parts: Vec<String> = Vec::new();
    let mut i: usize = 0;
    while i < services.len()
        invariant
            i <= services.len(),
            views(parts@) == services@.take(i as int).map_values(
                |s: ServiceStatus| status_object(s),
            ),
        decreases services.len() - i,
    {
        let o = status_object_text(&services[i]);
        let ghost before = parts@;
        parts.push(o);
        proof {
            assert(views(parts@) =~= views(before).push(status_object(services@[i as int])));
            assert(services@.take(i + 1).map_values(|s: ServiceStatus| status_object(s))
                =~= services@.take(i as int).map_values(|s: ServiceStatus| status_object(s)).push(
                status_object(services@[i as int]),
            ));
        }
        i = i + 1;
    }
    proof {
        assert(services@.take(services.len() as int) =~= services@);
    }
    let mut out = "{\"project\":".to_owned();
    let p = json_quote(project);
    append_str(&mut out, p.as_str());
    append_str(&mut out, ",\"services\":[");
    let list = crate::text::join_strings(&parts, ",");
    append_str(&mut out, list.as_str());
    append_str(&mut out, "]}");
    proof {
        assert(out@ =~= status_report(project@, services@));
    }
    out
}

} // verus!
