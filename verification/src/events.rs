//! Service states and the events that flow from the orchestrator, the
//! proxies, the watchers and the control socket to the front ends.
use std::time::Instant;

use vstd::prelude::*;

use crate::config::ConfigDiff;
use crate::text::{append_dec, append_str, dec, join_strings, joined, views};

verus! {

/// `std::time::Instant`, carried through events untouched.
#[verifier::external_type_specification]
#[verifier::external_body]
pub struct ExInstant(Instant);

/// The lifecycle state of one service.
#[derive(Debug)]
pub enum ServiceState {
    Pending,
    Starting,
    Healthy,
    Unhealthy,
    Failed(String),
    Stopped,
}

/// The one-word name of a state, as shown in the status table and the log.
pub open spec fn state_label(s: ServiceState) -> Seq<char> {
    match s {
        ServiceState::Pending => "pending"@,
        ServiceState::Starting => "starting"@,
        ServiceState::Healthy => "healthy"@,
        ServiceState::Unhealthy => "unhealthy"@,
        ServiceState::Failed(_) => "failed"@,
        ServiceState::Stopped => "stopped"@,
    }
}

/// The states read `pending`, `starting`, `healthy`, `unhealthy`, `failed`
/// and `stopped`, and no two states of different kinds read alike.
pub proof fn lemma_state_labels(s: ServiceState, t: ServiceState)
    ensures
        s is Pending ==> state_label(s) == "pending"@,
        s is Starting ==> state_label(s) == "starting"@,
        s is Healthy ==> state_label(s) == "healthy"@,
        s is Unhealthy ==> state_label(s) == "unhealthy"@,
        s is Failed ==> state_label(s) == "failed"@,
        s is Stopped ==> state_label(s) == "stopped"@,
        state_label(s) == state_label(t) ==> (s is Failed && t is Failed) || s == t,
{
    reveal_strlit("pending");
    reveal_strlit("starting");
    reveal_strlit("healthy");
    reveal_strlit("unhealthy");
    reveal_strlit("failed");
    reveal_strlit("stopped");
    assert("pending"@[0] == 'p' && "healthy"@[0] == 'h' && "stopped"@[0] == 's');
    assert("pending"@.len() == 7 && "healthy"@.len() == 7 && "stopped"@.len() == 7);
    assert("starting"@.len() == 8 && "unhealthy"@.len() == 9 && "failed"@.len() == 6);
}

/// The status dot: hollow for a stopped service, filled otherwise.
pub open spec fn state_symbol(s: ServiceState) -> Seq<char> {
    match s {
        ServiceState::Stopped => "○"@,
        _ => "●"@,
    }
}

impl ServiceState {
    /// The status dot of this state.
    pub fn symbol(&self) -> (r: &'static str)
        ensures
            r@ == state_symbol(*self),
    {
        match self {
            ServiceState::Stopped => "○",
            _ => "●",
        }
    }

    /// The label of this state.
    pub fn label(&self) -> (r: &'static str)
        ensures
            r@ == state_label(*self),
    {
        match self {
            ServiceState::Pending => "pending",
            ServiceState::Starting => "starting",
            ServiceState::Healthy => "healthy",
            ServiceState::Unhealthy => "unhealthy",
            ServiceState::Failed(_) => "failed",
            ServiceState::Stopped => "stopped",
        }
    }

    /// A copy of this state.
    pub fn duplicate(&self) -> (r: ServiceState)
        ensures
            r == *self,
    {
        match self {
            ServiceState::Pending => ServiceState::Pending,
            ServiceState::Starting => ServiceState::Starting,
            ServiceState::Healthy => ServiceState::Healthy,
            ServiceState::Unhealthy => ServiceState::Unhealthy,
            ServiceState::Failed(m) => ServiceState::Failed(m.clone()),
            ServiceState::Stopped => ServiceState::Stopped,
        }
    }
}

/// Something that happened in a running session.
#[derive(Debug)]
pub enum DevxEvent {
    LogLine { service: String, line: String, is_stderr: bool },
    StateChange { service: String, state: ServiceState, started_at: Option<Instant> },
    ProxyBound { service: String, proxy_port: u16, target_port: u16 },
    /// The vhost proxy is listening; `domains` holds (domain, service) pairs.
    VhostBound { port: u16, domains: Vec<(String, String)>, tls: bool },
    FileChanged { service: String },
    ConfigReloaded { diff: ConfigDiff },
    AllStarted,
    Tick,
    ControlShutdown,
    ControlRestart { service: String },
}

/// `[name]`.
pub open spec fn tag(name: Seq<char>) -> Seq<char> {
    "["@ + name + "]"@
}

/// Each name of `names` behind `prefix`.
pub open spec fn prefixed(prefix: Seq<char>, names: Seq<Seq<char>>) -> Seq<Seq<char>> {
    names.map_values(|n: Seq<char>| prefix + n)
}

/// The summary of a configuration reload as the daemon log writes it:
/// `added X`, then `removed X`, then `changed X`, joined with commas, or
/// `no changes`.
pub open spec fn reload_summary(
    added: Seq<Seq<char>>,
    removed: Seq<Seq<char>>,
    changed: Seq<Seq<char>>,
) -> Seq<char> {
    let parts = prefixed("added "@, added) + prefixed("removed "@, removed) + prefixed(
        "changed "@,
        changed,
    );
    if parts.len() == 0 {
        "no changes"@
    } else {
        joined(parts, ", "@)
    }
}

/// The domains of (domain, service) pairs.
pub open spec fn first_views(pairs: Seq<(String, String)>) -> Seq<Seq<char>> {
    pairs.map_values(|p: (String, String)| p.0@)
}

/// What the daemon log says of an event, after the time stamp; nothing for
/// a tick and for a shutdown request (the drain loop reports that itself).
pub open spec fn event_text(e: DevxEvent) -> Option<Seq<char>> {
    match e {
        DevxEvent::LogLine { service, line, is_stderr } => Some(
            if is_stderr {
                tag(service@) + " [stderr] "@ + line@
            } else {
                tag(service@) + " "@ + line@
            },
        ),
        DevxEvent::StateChange { service, state, .. } => Some(
            tag(service@) + " state: "@ + state_label(state),
        ),
        DevxEvent::ProxyBound { service, proxy_port, target_port } => Some(
            tag(service@) + " proxy :"@ + dec(proxy_port as nat) + " -> :"@ + dec(
                target_port as nat,
            ),
        ),
        DevxEvent::VhostBound { port, domains, tls } => Some(
            "[devx] vhost "@ + (if tls {
                "https"@
            } else {
                "http"@
            }) + " :"@ + dec(port as nat) + " domains: "@ + joined(first_views(domains@), ", "@),
        ),
        DevxEvent::FileChanged { service } => Some(tag(service@) + " file changed, restarting"@),
        DevxEvent::ConfigReloaded { diff } => Some(
            "[devx] config reloaded: "@ + reload_summary(
                views(diff.added@),
                views(diff.removed@),
                views(diff.changed@),
            ),
        ),
        DevxEvent::AllStarted => Some("[devx] all services started"@),
        DevxEvent::Tick => None,
        DevxEvent::ControlShutdown => None,
        DevxEvent::ControlRestart { service } => Some("[devx] control: restart "@ + service@),
    }
}

/// A log line: `[ts] text`.
pub open spec fn stamped(ts: Seq<char>, text: Seq<char>) -> Seq<char> {
    "["@ + ts + "] "@ + text
}

/// Appends `prefix` followed by each name, as separate parts.
fn push_prefixed(parts: &mut Vec<String>, prefix: &str, names: &Vec<String>)
    ensures
        views(final(parts)@) == views(old(parts)@) + prefixed(prefix@, views(names@)),
{
    let ghost start = views(parts@);
    let mut i: usize = 0;
    while i < names.len()
        invariant
            i <= names.len(),
            views(parts@) == start + prefixed(prefix@, views(names@.take(i as int))),
        decreases names.len() - i,
    {
        let mut p = String::new();
        append_str(&mut p, prefix);
        append_str(&mut p, names[i].as_str());
        let ghost before = parts@;
        parts.push(p);
        proof {
            assert(views(parts@) =~= views(before).push(prefix@ + names@[i as int]@));
            assert(prefixed(prefix@, views(names@.take(i + 1))) =~= prefixed(
                prefix@,
                views(names@.take(i as int)),
            ).push(prefix@ + names@[i as int]@));
            assert(views(parts@) =~= start + prefixed(prefix@, views(names@.take(i + 1))));
        }
        i = i + 1;
    }
    proof {
        assert(names@.take(names.len() as int) =~= names@);
    }
}

/// The daemon log's summary of a reload.
pub fn reload_summary_text(diff: &ConfigDiff) -> (r: String)
    ensures
        r@ == reload_summary(views(diff.added@), views(diff.removed@), views(diff.changed@)),
{
    let mut parts: Vec<String> = Vec::new();
    push_prefixed(&mut parts, "added ", &diff.added);
    push_prefixed(&mut parts, "removed ", &diff.removed);
    push_prefixed(&mut parts, "changed ", &diff.changed);
    proof {
        assert(views(parts@) =~= prefixed("added "@, views(diff.added@)) + prefixed(
            "removed "@,
            views(diff.removed@),
        ) + prefixed("changed "@, views(diff.changed@)));
    }
    if parts.len() == 0 {
        "no changes".to_owned()
    } else {
        join_strings(&parts, ", ")
    }
}

/// Appends `[name]`.
fn append_tag(s: &mut String, name: &str)
    ensures
        final(s)@ == old(s)@ + tag(name@),
{
    append_str(s, "[");
    append_str(s, name);
    append_str(s, "]");
    proof {
        assert(final(s)@ =~= old(s)@ + tag(name@)) by {
            assert(tag(name@) =~= "["@ + name@ + "]"@);
        }
    }
}

/// What the daemon log writes for `e` after the time stamp.
pub fn event_log_text(e: &DevxEvent) -> (r: Option<String>)
    ensures
        opt_text(r) == event_text(*e),
{
    match e {
        DevxEvent::LogLine { service, line, is_stderr } => {
            let mut s = String::new();
            append_tag(&mut s, service.as_str());
            if *is_stderr {
                append_str(&mut s, " [stderr] ");
            } else {
                append_str(&mut s, " ");
            }
            append_str(&mut s, line.as_str());
            proof {
                assert(s@ =~= event_text(*e)->0);
            }
            Some(s)
        },
        DevxEvent::StateChange { service, state, .. } => {
            let mut s = String::new();
            append_tag(&mut s, service.as_str());
            append_str(&mut s, " state: ");
            append_str(&mut s, state.label());
            proof {
                assert(s@ =~= event_text(*e)->0);
            }
            Some(s)
        },
        DevxEvent::ProxyBound { service, proxy_port, target_port } => {
            let mut s = String::new();
            append_tag(&mut s, service.as_str());
            append_str(&mut s, " proxy :");
            append_dec(&mut s, *proxy_port as u64);
            append_str(&mut s, " -> :");
            append_dec(&mut s, *target_port as u64);
            proof {
                assert(s@ =~= event_text(*e)->0);
            }
            Some(s)
        },
        DevxEvent::VhostBound { port, domains, tls } => {
            let mut names: Vec<String> = Vec::new();
            let mut i: usize = 0;
            while i < domains.len()
                invariant
                    i <= domains.len(),
                    views(names@) == first_views(domains@.take(i as int)),
                decreases domains.len() - i,
            {
                names.push(domains[i].0.clone());
                proof {
                    assert(first_views(domains@.take(i + 1)) =~= first_views(
                        domains@.take(i as int),
                    ).push(domains@[i as int].0@));
                    assert(views(names@) =~= first_views(domains@.take(i + 1)));
                }
                i = i + 1;
            }
            proof {
                assert(domains@.take(domains.len() as int) =~= domains@);
            }
            let mut s = String::new();
            append_str(&mut s, "[devx] vhost ");
            if *tls {
                append_str(&mut s, "https");
            } else {
                append_str(&mut s, "http");
            }
            append_str(&mut s, " :");
            append_dec(&mut s, *port as u64);
            append_str(&mut s, " domains: ");
            let list = join_strings(&names, ", ");
            append_str(&mut s, list.as_str());
            proof {
                assert(s@ =~= event_text(*e)->0);
            }
            Some(s)
        },
        DevxEvent::FileChanged { service } => {
            let mut s = String::new();
            append_tag(&mut s, service.as_str());
            append_str(&mut s, " file changed, restarting");
            Some(s)
        },
        DevxEvent::ConfigReloaded { diff } => {
            let mut s = String::new();
            append_str(&mut s, "[devx] config reloaded: ");
            let summary = reload_summary_text(diff);
            append_str(&mut s, summary.as_str());
            Some(s)
        },
        DevxEvent::AllStarted => Some("[devx] all services started".to_owned()),
        DevxEvent::Tick => None,
        DevxEvent::ControlShutdown => None,
        DevxEvent::ControlRestart { service } => {
            let mut s = String::new();
            append_str(&mut s, "[devx] control: restart ");
            append_str(&mut s, service.as_str());
            Some(s)
        },
    }
}

/// The characters of an optional string.
pub open spec fn opt_text(o: Option<String>) -> Option<Seq<char>> {
    match o {
        Some(s) => Some(s@),
        None => None,
    }
}

/// `[ts] text`: a line of the daemon log.
pub fn stamp(ts: &str, text: &str) -> (r: String)
    ensures
        r@ == stamped(ts@, text@),
{
    let mut s = String::new();
    append_str(&mut s, "[");
    append_str(&mut s, ts);
    append_str(&mut s, "] ");
    append_str(&mut s, text);
    proof {
        assert(s@ =~= stamped(ts@, text@));
    }
    s
}

/// The daemon log line for `e` stamped with `ts`, or none where the log
/// writes nothing.
pub fn event_log_line(ts: &str, e: &DevxEvent) -> (r: Option<String>)
    ensures
        opt_text(r) == (match event_text(*e) {
            Some(t) => Some(stamped(ts@, t)),
            None => None,
        }),
{
    match event_log_text(e) {
        Some(t) => Some(stamp(ts, t.as_str())),
        None => None,
    }
}

/// A report line of the form `[{tag}] {what}: {detail}`.
pub fn tagged_message(tag: &str, what: &str, detail: &str) -> (r: String)
    ensures
        r@ == "["@ + tag@ + "] "@ + what@ + ": "@ + detail@,
{
    let mut s = "[".to_owned();
    append_str(&mut s, tag);
    append_str(&mut s, "] ");
    append_str(&mut s, what);
    append_str(&mut s, ": ");
    append_str(&mut s, detail);
    s
}

/// An error line from devx itself, for the log.
pub fn devx_error(line: String) -> (e: DevxEvent)
    ensures
        e matches DevxEvent::LogLine { service, line: l, is_stderr } && service@ == "devx"@ && l
            == line && is_stderr,
{
    DevxEvent::LogLine { service: "devx".to_owned(), line, is_stderr: true }
}

} // verus!
