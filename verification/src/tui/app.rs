//! The dashboard's state, and how keys and session events change it.
use std::time::Instant;

use vstd::prelude::*;

use crate::config::ConfigDiff;
use crate::daemon::{format_uptime, uptime_text};
use crate::events::{reload_summary, DevxEvent, ServiceState};
use crate::strmap::{strs, StrMap};
use crate::text::{append_dec, append_str, dec, join_strings, joined, str_eq, views};
use crate::tui::keys::Action;
use crate::tui::logs::{palette, service_color, LogColor, LogEntry};
use crate::tui::status::ServiceInfo;

verus! {

/// What the dashboard asks of the orchestrator.
#[derive(Debug)]
pub enum TuiCommand {
    Restart(String),
    Shutdown,
}

/// Log entries kept before the oldest are dropped.
pub const LOG_HIGH_WATER: usize = 6000;

/// Entries dropped at once when the log grows past the high-water mark.
pub const LOG_DROP: usize = 2000;

/// The colours given to `names.take(n)`: each name gets the palette colour
/// of its position (a repeated name keeps its last).
pub open spec fn colors_for(names: Seq<Seq<char>>, n: nat, start: nat) -> Map<Seq<char>, LogColor>
    decreases n,
{
    if n == 0 || n > names.len() {
        Map::empty()
    } else {
        colors_for(names, (n - 1) as nat, start).insert(names[n - 1], palette((start + n - 1) as nat))
    }
}

/// The colour of a service's log lines: its own, or white when it has none.
pub open spec fn color_or_white(colors: Map<Seq<char>, LogColor>, service: Seq<char>) -> LogColor {
    if colors.contains_key(service) {
        colors[service]
    } else {
        LogColor::White
    }
}

/// The branch badge shown in the title: none on a default branch.
pub open spec fn badge_branch(branch: Option<Seq<char>>) -> Option<Seq<char>> {
    match branch {
        Some(b) => if b == "main"@ || b == "master"@ || b == "HEAD"@ {
            None
        } else {
            Some(b)
        },
        None => None,
    }
}

/// The title shows a branch badge exactly when the branch gets prefixed
/// vhost domains: on a branch other than `main`, `master` and `HEAD`, and
/// then the badge is the branch itself.
pub proof fn lemma_badge_matches_domains(branch: Option<Seq<char>>, domain: Seq<char>)
    ensures
        badge_branch(branch) is Some <==> crate::git::branch_domain_of(branch, domain) is Some,
        branch is Some && branch->0 != "main"@ && branch->0 != "master"@ && branch->0 != "HEAD"@
            ==> badge_branch(branch) == branch,
{
}

/// The summary of a reload as the dashboard reports it: `restarted X`,
/// then `added X`, then `removed X`, joined with commas, or `no changes`.
pub open spec fn tui_reload_summary(
    added: Seq<Seq<char>>,
    removed: Seq<Seq<char>>,
    changed: Seq<Seq<char>>,
) -> Seq<char> {
    let parts = crate::events::prefixed("restarted "@, changed) + crate::events::prefixed(
        "added "@,
        added,
    ) + crate::events::prefixed("removed "@, removed);
    if parts.len() == 0 {
        "no changes"@
    } else {
        joined(parts, ", "@)
    }
}

/// The filter after toggling it on `name`: off if it showed `name`, else
/// showing `name`.
pub open spec fn toggled(filter: Option<Seq<char>>, name: Seq<char>) -> Option<Seq<char>> {
    if filter == Some(name) {
        None
    } else {
        Some(name)
    }
}

/// One step back in the log (saturating).
pub open spec fn scrolled_up(scroll: nat) -> nat {
    if scroll < usize::MAX {
        scroll + 1
    } else {
        scroll
    }
}

/// One step forward in the log (saturating at the newest entry).
pub open spec fn scrolled_down(scroll: nat) -> nat {
    if scroll > 0 {
        (scroll - 1) as nat
    } else {
        0
    }
}

/// The selection after moving up in a list of `n` rows (wrapping to the
/// last row).
pub open spec fn prev_selection(selected: nat, n: nat) -> nat {
    if n == 0 {
        selected
    } else if selected == 0 {
        (n - 1) as nat
    } else {
        (selected - 1) as nat
    }
}

/// The selection after moving down in a list of `n` rows (wrapping to the
/// first row).
pub open spec fn next_selection(selected: nat, n: nat) -> nat {
    if n == 0 {
        selected
    } else {
        ((selected + 1) % n) as nat
    }
}

/// Moving down then up, or up then down, returns to the same row; either
/// move keeps a selection within the list.
pub proof fn lemma_selection_round_trip(selected: nat, n: nat)
    requires
        selected < n,
    ensures
        prev_selection(next_selection(selected, n), n) == selected,
        next_selection(prev_selection(selected, n), n) == selected,
        next_selection(selected, n) < n,
        prev_selection(selected, n) < n,
{
    if selected + 1 < n {
        vstd::arithmetic::div_mod::lemma_small_mod((selected + 1) as nat, n);
    } else {
        vstd::arithmetic::div_mod::lemma_mod_self_0(n as int);
    }
    if selected > 0 {
        vstd::arithmetic::div_mod::lemma_small_mod(selected, n);
    } else {
        vstd::arithmetic::div_mod::lemma_mod_self_0(n as int);
    }
}

/// Scrolling back then forward returns to the same place.
pub proof fn lemma_scroll_round_trip(scroll: nat)
    requires
        scroll < usize::MAX,
    ensures
        scrolled_down(scrolled_up(scroll)) == scroll,
{
}

/// Toggling the filter on the same service twice restores it, when it was
/// off or already on that service.
pub proof fn lemma_toggle_twice(filter: Option<Seq<char>>, name: Seq<char>)
    requires
        filter is None || filter == Some(name),
    ensures
        toggled(toggled(filter, name), name) == filter,
{
}

/// The dashboard's state.
pub struct App {
    project_name: String,
    branch: Option<String>,
    service_names: Vec<String>,
    service_states: StrMap<ServiceState>,
    service_ports: StrMap<u16>,
    proxy_ports: StrMap<u16>,
    started_at: StrMap<Instant>,
    log_entries: Vec<LogEntry>,
    service_colors: StrMap<LogColor>,
    vhost_port: Option<u16>,
    vhost_tls: bool,
    service_domains: StrMap<String>,
    selected_service: usize,
    scroll_offset: usize,
    filter: Option<String>,
    should_quit: bool,
}

/// The view of an optional string.
pub open spec fn ov(o: Option<String>) -> Option<Seq<char>> {
    match o {
        Some(s) => Some(s@),
        None => None,
    }
}

impl App {
    /// The project shown in the title.
    pub closed spec fn project(&self) -> Seq<char> {
        self.project_name@
    }

    /// The branch shown in the title, if any.
    pub closed spec fn branch(&self) -> Option<Seq<char>> {
        ov(self.branch)
    }

    /// The services listed, in order.
    pub closed spec fn names(&self) -> Seq<Seq<char>> {
        strs(self.service_names@)
    }

    /// The last reported state of each service.
    pub closed spec fn states(&self) -> Map<Seq<char>, ServiceState> {
        self.service_states.as_map()
    }

    /// The actual port of each service, as its proxy reported it.
    pub closed spec fn ports(&self) -> Map<Seq<char>, u16> {
        self.service_ports.as_map()
    }

    /// The proxy port of each service.
    pub closed spec fn proxies(&self) -> Map<Seq<char>, u16> {
        self.proxy_ports.as_map()
    }

    /// When each service was last started.
    pub closed spec fn started(&self) -> Map<Seq<char>, Instant> {
        self.started_at.as_map()
    }

    /// The log pane's entries, oldest first.
    pub closed spec fn logs(&self) -> Seq<LogEntry> {
        self.log_entries@
    }

    /// The colour of each service's log lines.
    pub closed spec fn colors(&self) -> Map<Seq<char>, LogColor> {
        self.service_colors.as_map()
    }

    /// The vhost port, once bound.
    pub closed spec fn vhost(&self) -> Option<u16> {
        self.vhost_port
    }

    /// Whether the vhost proxy serves TLS.
    pub closed spec fn vhost_tls(&self) -> bool {
        self.vhost_tls
    }

    /// The domain of each service, as the vhost proxy reported it.
    pub closed spec fn domains(&self) -> Map<Seq<char>, Seq<char>> {
        self.service_domains.as_map().map_values(|d: String| d@)
    }

    /// The selected row.
    pub closed spec fn selected(&self) -> nat {
        self.selected_service as nat
    }

    /// How far the log pane is scrolled back.
    pub closed spec fn scroll(&self) -> nat {
        self.scroll_offset as nat
    }

    /// The service whose lines alone are shown, if any.
    pub closed spec fn filter(&self) -> Option<Seq<char>> {
        ov(self.filter)
    }

    /// Whether the dashboard is closing.
    pub closed spec fn quitting(&self) -> bool {
        self.should_quit
    }

    /// The name of the selected service, or empty when the selection is
    /// past the end.
    pub open spec fn selected_name(&self) -> Seq<char> {
        if self.selected() < self.names().len() {
            self.names()[self.selected() as int]
        } else {
            Seq::empty()
        }
    }

    /// A dashboard for `project_name` listing `service_names`, each with its
    /// palette colour, on `branch` (no badge on a default branch); no log
    /// yet, first row selected, no filter.
    pub fn new(project_name: String, service_names: Vec<String>, branch: Option<String>) -> (a: Self)
        ensures
            a.project() == project_name@,
            a.names() == strs(service_names@),
            a.colors() == colors_for(strs(service_names@), service_names@.len(), 0),
            a.branch() == badge_branch(ov(branch)),
            a.states() == Map::<Seq<char>, ServiceState>::empty(),
            a.ports() == Map::<Seq<char>, u16>::empty(),
            a.proxies() == Map::<Seq<char>, u16>::empty(),
            a.started() == Map::<Seq<char>, Instant>::empty(),
            a.domains() == Map::<Seq<char>, Seq<char>>::empty(),
            a.logs().len() == 0,
            a.vhost() is None,
            !a.vhost_tls(),
            a.selected() == 0,
            a.scroll() == 0,
            a.filter() is None,
            !a.quitting(),
    {
        let mut colors: StrMap<LogColor> = StrMap::new();
        proof {
            assert(colors.as_map() =~= Map::<Seq<char>, LogColor>::empty());
        }
        let mut i: usize = 0;
        while i < service_names.len()
            invariant
                i <= service_names.len(),
                colors.as_map() == colors_for(strs(service_names@), i as nat, 0),
            decreases service_names.len() - i,
        {
            colors.insert(service_names[i].clone(), service_color(i));
            i = i + 1;
        }
        let branch = match branch {
            Some(b) => {
                if str_eq(b.as_str(), "main") || str_eq(b.as_str(), "master") || str_eq(
                    b.as_str(),
                    "HEAD",
                ) {
                    None
                } else {
                    Some(b)
                }
            },
            None => None,
        };
        let domains: StrMap<String> = StrMap::new();
        let states: StrMap<ServiceState> = StrMap::new();
        let ports: StrMap<u16> = StrMap::new();
        let proxies: StrMap<u16> = StrMap::new();
        let started: StrMap<Instant> = StrMap::new();
        proof {
            assert(domains.as_map().map_values(|d: String| d@) =~= Map::<
                Seq<char>,
                Seq<char>,
            >::empty());
            assert(states.as_map() =~= Map::<Seq<char>, ServiceState>::empty());
            assert(ports.as_map() =~= Map::<Seq<char>, u16>::empty());
            assert(proxies.as_map() =~= Map::<Seq<char>, u16>::empty());
            assert(started.as_map() =~= Map::<Seq<char>, Instant>::empty());
        }
        App {
            project_name,
            branch,
            service_names,
            service_states: states,
            service_ports: ports,
            proxy_ports: proxies,
            started_at: started,
            log_entries: Vec::new(),
            service_colors: colors,
            vhost_port: None,
            vhost_tls: false,
            service_domains: domains,
            selected_service: 0,
            scroll_offset: 0,
            filter: None,
            should_quit: false,
        }
    }

    fn selected_name_exec(&self) -> (r: String)
        ensures
            r@ == self.selected_name(),
    {
        if self.selected_service < self.service_names.len() {
            self.service_names[self.selected_service].clone()
        } else {
            String::new()
        }
    }

    /// Carries out a key action. Quit asks for a shutdown; Restart asks
    /// to restart the selected service; the filter toggles between the
    /// selected service and none (resetting the scroll); Esc clears it;
    /// scrolling saturates; the selection wraps around the list.
    pub fn apply_action(&mut self, a: Action) -> (cmd: Option<TuiCommand>)
        ensures
            final(self).project() == old(self).project(),
            final(self).branch() == old(self).branch(),
            final(self).names() == old(self).names(),
            final(self).states() == old(self).states(),
            final(self).ports() == old(self).ports(),
            final(self).proxies() == old(self).proxies(),
            final(self).started() == old(self).started(),
            final(self).logs() == old(self).logs(),
            final(self).colors() == old(self).colors(),
            final(self).domains() == old(self).domains(),
            final(self).vhost() == old(self).vhost(),
            final(self).vhost_tls() == old(self).vhost_tls(),
            a == Action::Quit ==> cmd == Some(TuiCommand::Shutdown) && final(self).quitting(),
            a != Action::Quit ==> final(self).quitting() == old(self).quitting(),
            a == Action::Restart ==> if old(self).selected_name().len() > 0 {
                cmd matches Some(TuiCommand::Restart(s)) && s@ == old(self).selected_name()
            } else {
                cmd is None
            },
            a != Action::Quit && a != Action::Restart ==> cmd is None,
            a == Action::ToggleFilter ==> if old(self).selected_name().len() > 0 {
                &&& final(self).filter() == toggled(old(self).filter(), old(self).selected_name())
                &&& final(self).scroll() == 0
            } else {
                final(self).filter() == old(self).filter() && final(self).scroll() == old(
                    self,
                ).scroll()
            },
            a == Action::ClearFilter ==> final(self).filter() is None && final(self).scroll() == 0,
            a == Action::ScrollUp ==> final(self).scroll() == scrolled_up(old(self).scroll()),
            a == Action::ScrollDown ==> final(self).scroll() == scrolled_down(old(self).scroll()),
            a == Action::PrevService ==> final(self).selected() == prev_selection(
                old(self).selected(),
                old(self).names().len(),
            ),
            a == Action::NextService ==> final(self).selected() == next_selection(
                old(self).selected(),
                old(self).names().len(),
            ),
            a != Action::PrevService && a != Action::NextService ==> final(self).selected() == old(
                self,
            ).selected(),
            a != Action::ToggleFilter && a != Action::ClearFilter ==> final(self).filter() == old(
                self,
            ).filter(),
            a != Action::ToggleFilter && a != Action::ClearFilter && a != Action::ScrollUp && a
                != Action::ScrollDown ==> final(self).scroll() == old(self).scroll(),
    {
        match a {
            Action::Quit => {
                self.should_quit = true;
                Some(TuiCommand::Shutdown)
            },
            Action::Restart => {
                let name = self.selected_name_exec();
                if !name.as_str().is_empty() {
                    Some(TuiCommand::Restart(name))
                } else {
                    None
                }
            },
            Action::ToggleFilter => {
                let name = self.selected_name_exec();
                if !name.as_str().is_empty() {
                    let same = match &self.filter {
                        Some(f) => str_eq(f.as_str(), name.as_str()),
                        None => false,
                    };
                    if same {
                        self.filter = None;
                    } else {
                        self.filter = Some(name);
                    }
                    self.scroll_offset = 0;
                }
                None
            },
            Action::ClearFilter => {
                self.filter = None;
                self.scroll_offset = 0;
                None
            },
            Action::ScrollUp => {
                self.scroll_offset = self.scroll_offset.saturating_add(1);
                None
            },
            Action::ScrollDown => {
                self.scroll_offset = self.scroll_offset.saturating_sub(1);
                None
            },
            Action::PrevService => {
                let n = self.service_names.len();
                if n > 0 {
                    self.selected_service = if self.selected_service == 0 {
                        n - 1
                    } else {
                        self.selected_service - 1
                    };
                }
                None
            },
            Action::NextService => {
                let n = self.service_names.len();
                if n > 0 {
                    let s = self.selected_service % n;
                    let next = if s + 1 == n {
                        0
                    } else {
                        s + 1
                    };
                    proof {
                        let x = self.selected_service as int;
                        let m = n as int;
                        let r = s as int;
                        assert(r == x % m);
                        assert((x + 1) % m == (if r + 1 == m {
                            0
                        } else {
                            r + 1
                        })) by (nonlinear_arith)
                            requires
                                m > 0,
                                x >= 0,
                                r == x % m,
                        {
                            vstd::arithmetic::div_mod::lemma_fundamental_div_mod(x, m);
                            vstd::arithmetic::div_mod::lemma_mod_bound(x, m);
                            let q = x / m;
                            if r + 1 == m {
                                vstd::arithmetic::div_mod::lemma_fundamental_div_mod_converse(
                                    x + 1,
                                    m,
                                    q + 1,
                                    0,
                                );
                            } else {
                                vstd::arithmetic::div_mod::lemma_fundamental_div_mod_converse(
                                    x + 1,
                                    m,
                                    q,
                                    r + 1,
                                );
                            }
                        }
                    }
                    self.selected_service = next;
                }
                None
            },
            Action::NoOp => None,
        }
    }
}


/// The parts of `a` and `b` that only configuration changes and session
/// events touch are equal.
pub open spec fn same_tables(a: &App, b: &App) -> bool {
    &&& a.project() == b.project()
    &&& a.branch() == b.branch()
    &&& a.names() == b.names()
    &&& a.states() == b.states()
    &&& a.ports() == b.ports()
    &&& a.proxies() == b.proxies()
    &&& a.started() == b.started()
    &&& a.colors() == b.colors()
    &&& a.domains() == b.domains()
    &&& a.vhost() == b.vhost()
    &&& a.vhost_tls() == b.vhost_tls()
}

/// The selection, scroll, filter and quit flag of `a` and `b` are equal.
pub open spec fn same_view(a: &App, b: &App) -> bool {
    &&& a.selected() == b.selected()
    &&& a.scroll() == b.scroll()
    &&& a.filter() == b.filter()
    &&& a.quitting() == b.quitting()
}

/// The domains reported by a vhost binding, stored by service in order:
/// a service listed twice keeps its last domain.
pub open spec fn with_domains(m: Map<Seq<char>, Seq<char>>, pairs: Seq<(String, String)>, n: nat) -> Map<
    Seq<char>,
    Seq<char>,
>
    decreases n,
{
    if n == 0 || n > pairs.len() {
        m
    } else {
        with_domains(m, pairs, (n - 1) as nat).insert(pairs[n - 1].1@, pairs[n - 1].0@)
    }
}

/// Whether `name` is among `names`.
fn names_contain(names: &Vec<String>, name: &str) -> (r: bool)
    ensures
        r == strs(names@).contains(name@),
{
    let mut i: usize = 0;
    while i < names.len()
        invariant
            i <= names.len(),
            forall|j: int| 0 <= j < i ==> names@[j]@ != name@,
        decreases names.len() - i,
    {
        if str_eq(names[i].as_str(), name) {
            proof {
                assert(strs(names@)[i as int] == name@);
            }
            return true;
        }
        i = i + 1;
    }
    proof {
        if strs(names@).contains(name@) {
            let j = strs(names@).index_of(name@);
            assert(names@[j]@ == name@);
        }
    }
    false
}

/// Appends `prefix` followed by each name, as separate parts.
fn push_parts(parts: &mut Vec<String>, prefix: &str, names: &Vec<String>)
    ensures
        views(final(parts)@) == views(old(parts)@) + crate::events::prefixed(prefix@, views(names@)),
{
    let ghost start = views(parts@);
    let mut i: usize = 0;
    while i < names.len()
        invariant
            i <= names.len(),
            views(parts@) == start + crate::events::prefixed(prefix@, views(names@.take(i as int))),
        decreases names.len() - i,
    {
        let mut p = prefix.to_owned();
        append_str(&mut p, names[i].as_str());
        let ghost before = parts@;
        parts.push(p);
        proof {
            assert(views(parts@) =~= views(before).push(prefix@ + names@[i as int]@));
            assert(crate::events::prefixed(prefix@, views(names@.take(i + 1))) =~= crate::events::prefixed(
                prefix@,
                views(names@.take(i as int)),
            ).push(prefix@ + names@[i as int]@));
        }
        i = i + 1;
    }
    proof {
        assert(names@.take(names.len() as int) =~= names@);
    }
}

impl App {
    /// A log entry for `service` in its colour.
    fn colored_entry(&self, service: String, line: String, is_stderr: bool) -> (e: LogEntry)
        ensures
            e == (LogEntry {
                service,
                line,
                is_stderr,
                color: color_or_white(self.colors(), service@),
            }),
    {
        let color = match self.service_colors.get(service.as_str()) {
            Some(c) => *c,
            None => LogColor::White,
        };
        LogEntry { service, line, is_stderr, color }
    }

    /// Applies a session event. Log lines are appended in their service's
    /// colour; state, proxy and vhost reports update the tables; a file
    /// change is logged and asks for a restart; a reload updates the list
    /// (see `apply_reload`); a shutdown request quits; a restart request is
    /// passed on.
    pub fn handle_event(&mut self, e: DevxEvent) -> (cmd: Option<TuiCommand>)
        ensures
            same_view(final(self), old(self)) || e is ControlShutdown,
            match e {
                DevxEvent::LogLine { service, line, is_stderr } => {
                    &&& cmd is None
                    &&& same_tables(final(self), old(self))
                    &&& final(self).logs() == old(self).logs().push(
                        (LogEntry {
                            service,
                            line,
                            is_stderr,
                            color: color_or_white(old(self).colors(), service@),
                        }),
                    )
                },
                DevxEvent::StateChange { service, state, started_at } => {
                    &&& cmd is None
                    &&& final(self).logs() == old(self).logs()
                    &&& final(self).states() == old(self).states().insert(service@, state)
                    &&& final(self).started() == match started_at {
                        Some(t) => old(self).started().insert(service@, t),
                        None => old(self).started(),
                    }
                    &&& final(self).names() == old(self).names()
                    &&& final(self).ports() == old(self).ports()
                    &&& final(self).proxies() == old(self).proxies()
                    &&& final(self).colors() == old(self).colors()
                    &&& final(self).domains() == old(self).domains()
                    &&& final(self).vhost() == old(self).vhost()
                    &&& final(self).vhost_tls() == old(self).vhost_tls()
                    &&& final(self).project() == old(self).project()
                    &&& final(self).branch() == old(self).branch()
                },
                DevxEvent::ProxyBound { service, proxy_port, target_port } => {
                    &&& cmd is None
                    &&& final(self).logs() == old(self).logs()
                    &&& final(self).proxies() == old(self).proxies().insert(service@, proxy_port)
                    &&& final(self).ports() == old(self).ports().insert(service@, target_port)
                    &&& final(self).names() == old(self).names()
                    &&& final(self).states() == old(self).states()
                    &&& final(self).started() == old(self).started()
                    &&& final(self).colors() == old(self).colors()
                    &&& final(self).domains() == old(self).domains()
                    &&& final(self).vhost() == old(self).vhost()
                    &&& final(self).vhost_tls() == old(self).vhost_tls()
                    &&& final(self).project() == old(self).project()
                    &&& final(self).branch() == old(self).branch()
                },
                DevxEvent::VhostBound { port, domains, tls } => {
                    &&& cmd is None
                    &&& final(self).logs() == old(self).logs()
                    &&& final(self).vhost() == Some(port)
                    &&& final(self).vhost_tls() == tls
                    &&& final(self).domains() == with_domains(
                        old(self).domains(),
                        domains@,
                        domains@.len(),
                    )
                    &&& final(self).names() == old(self).names()
                    &&& final(self).states() == old(self).states()
                    &&& final(self).ports() == old(self).ports()
                    &&& final(self).proxies() == old(self).proxies()
                    &&& final(self).started() == old(self).started()
                    &&& final(self).colors() == old(self).colors()
                    &&& final(self).project() == old(self).project()
                    &&& final(self).branch() == old(self).branch()
                },
                DevxEvent::FileChanged { service } => {
                    &&& cmd matches Some(TuiCommand::Restart(s)) && s@ == service@
                    &&& same_tables(final(self), old(self))
                    &&& final(self).logs().len() == old(self).logs().len() + 1
                    &&& final(self).logs().drop_last() == old(self).logs()
                    &&& final(self).logs().last().service@ == service@
                    &&& final(self).logs().last().line@ == "file changed, restarting..."@
                    &&& !final(self).logs().last().is_stderr
                    &&& final(self).logs().last().color == color_or_white(
                        old(self).colors(),
                        service@,
                    )
                },
                DevxEvent::ConfigReloaded { diff } => cmd is None && reloaded(
                    old(self),
                    final(self),
                    diff,
                ),
                DevxEvent::ControlShutdown => {
                    &&& cmd == Some(TuiCommand::Shutdown)
                    &&& final(self).quitting()
                    &&& same_tables(final(self), old(self))
                    &&& final(self).logs() == old(self).logs()
                    &&& final(self).selected() == old(self).selected()
                    &&& final(self).scroll() == old(self).scroll()
                    &&& final(self).filter() == old(self).filter()
                },
                DevxEvent::ControlRestart { service } => {
                    &&& cmd matches Some(TuiCommand::Restart(s)) && s@ == service@
                    &&& same_tables(final(self), old(self))
                    &&& final(self).logs() == old(self).logs()
                },
                _ => {
                    &&& cmd is None
                    &&& same_tables(final(self), old(self))
                    &&& final(self).logs() == old(self).logs()
                },
            },
    {
        match e {
            DevxEvent::LogLine { service, line, is_stderr } => {
                let entry = self.colored_entry(service, line, is_stderr);
                self.log_entries.push(entry);
                None
            },
            DevxEvent::StateChange { service, state, started_at } => {
                match started_at {
                    Some(t) => {
                        self.started_at.insert(service.clone(), t);
                    },
                    None => {},
                }
                self.service_states.insert(service, state);
                None
            },
            DevxEvent::ProxyBound { service, proxy_port, target_port } => {
                self.proxy_ports.insert(service.clone(), proxy_port);
                self.service_ports.insert(service, target_port);
                None
            },
            DevxEvent::VhostBound { port, domains, tls } => {
                self.vhost_port = Some(port);
                self.vhost_tls = tls;
                let mut dm: StrMap<String> = StrMap::new();
                std::mem::swap(&mut dm, &mut self.service_domains);
                let ghost m0 = dm.as_map().map_values(|d: String| d@);
                let mut i: usize = 0;
                while i < domains.len()
                    invariant
                        i <= domains.len(),
                        dm.as_map().map_values(|d: String| d@) == with_domains(m0, domains@, i as nat),
                    decreases domains.len() - i,
                {
                    let ghost before = dm.as_map();
                    dm.insert(domains[i].1.clone(), domains[i].0.clone());
                    proof {
                        assert(dm.as_map().map_values(|d: String| d@) =~= before.map_values(
                            |d: String| d@,
                        ).insert(domains@[i as int].1@, domains@[i as int].0@));
                    }
                    i = i + 1;
                }
                self.service_domains = dm;
                None
            },
            DevxEvent::FileChanged { service } => {
                let entry = self.colored_entry(
                    service.clone(),
                    "file changed, restarting...".to_owned(),
                    false,
                );
                self.log_entries.push(entry);
                Some(TuiCommand::Restart(service))
            },
            DevxEvent::ConfigReloaded { diff } => {
                self.apply_reload(&diff);
                None
            },
            DevxEvent::ControlShutdown => {
                self.should_quit = true;
                Some(TuiCommand::Shutdown)
            },
            DevxEvent::ControlRestart { service } => Some(TuiCommand::Restart(service)),
            _ => None,
        }
    }

    /// Applies a configuration reload: added services join the end of the
    /// list with the next palette colours, removed ones leave the list and
    /// every table, and the log reports the change.
    pub fn apply_reload(&mut self, diff: &ConfigDiff)
        ensures
            reloaded(old(self), final(self), *diff),
    {
        let mut parts: Vec<String> = Vec::new();
        push_parts(&mut parts, "restarted ", &diff.changed);
        let mut names: Vec<String> = Vec::new();
        std::mem::swap(&mut names, &mut self.service_names);
        let mut colors: StrMap<LogColor> = StrMap::new();
        std::mem::swap(&mut colors, &mut self.service_colors);
        let ghost names0 = strs(names@);
        let ghost colors0 = colors.as_map();
        let ghost added = views(diff.added@);
        let ghost removed = views(diff.removed@);
        proof {
            assert(colors_for(added, 0, names0.len()) =~= Map::<Seq<char>, LogColor>::empty());
            assert(colors0.union_prefer_right(Map::<Seq<char>, LogColor>::empty()) =~= colors0);
            assert(names0 + added.take(0) =~= names0);
        }
        let mut i: usize = 0;
        while i < diff.added.len()
            invariant
                i <= diff.added.len(),
                added == views(diff.added@),
                strs(names@) == names0 + added.take(i as int),
                colors.as_map() == colors0.union_prefer_right(colors_for(added, i as nat, names0.len())),
            decreases diff.added.len() - i,
        {
            let name = &diff.added[i];
            let ghost nb = names@;
            colors.insert(name.clone(), service_color(names.len()));
            names.push(name.clone());
            proof {
                assert(added.take(i + 1) =~= added.take(i as int).push(added[i as int]));
                assert(strs(names@) =~= strs(nb).push(name@));
                assert(colors.as_map() =~= colors0.union_prefer_right(
                    colors_for(added, (i + 1) as nat, names0.len()),
                ));
            }
            i = i + 1;
        }
        proof {
            assert(added.take(diff.added.len() as int) =~= added);
        }
        push_parts(&mut parts, "added ", &diff.added);
        push_parts(&mut parts, "removed ", &diff.removed);
        let ghost all = strs(names@);
        let ghost keep = |n: Seq<char>| !removed.contains(n);
        let mut kept: Vec<String> = Vec::new();
        let mut j: usize = 0;
        while j < names.len()
            invariant
                j <= names.len(),
                all == strs(names@),
                removed == views(diff.removed@),
                keep == (|n: Seq<char>| !removed.contains(n)),
                strs(kept@) == all.take(j as int).filter(keep),
            decreases names.len() - j,
        {
            let n = &names[j];
            proof {
                assert(all.take(j + 1) =~= all.take(j as int).push(all[j as int]));
                all.take(j as int).lemma_filter_push(all[j as int], keep);
                assert(views(diff.removed@) =~= strs(diff.removed@));
            }
            if !names_contain(&diff.removed, n.as_str()) {
                let ghost before = kept@;
                kept.push(n.clone());
                proof {
                    assert(strs(kept@) =~= strs(before).push(n@));
                }
            }
            j = j + 1;
        }
        proof {
            assert(all.take(all.len() as int) =~= all);
        }
        self.service_names = kept;
        self.service_colors = colors;
        let mut st: StrMap<ServiceState> = StrMap::new();
        std::mem::swap(&mut st, &mut self.service_states);
        let mut po: StrMap<u16> = StrMap::new();
        std::mem::swap(&mut po, &mut self.service_ports);
        let mut pr: StrMap<u16> = StrMap::new();
        std::mem::swap(&mut pr, &mut self.proxy_ports);
        let mut sa: StrMap<Instant> = StrMap::new();
        std::mem::swap(&mut sa, &mut self.started_at);
        let mut dm: StrMap<String> = StrMap::new();
        std::mem::swap(&mut dm, &mut self.service_domains);
        let ghost st0 = st.as_map();
        let ghost po0 = po.as_map();
        let ghost pr0 = pr.as_map();
        let ghost sa0 = sa.as_map();
        let ghost dm0 = dm.as_map();
        proof {
            assert(set_of(removed.take(0)) =~= Set::<Seq<char>>::empty());
            assert(st0.remove_keys(Set::empty()) =~= st0);
            assert(po0.remove_keys(Set::empty()) =~= po0);
            assert(pr0.remove_keys(Set::empty()) =~= pr0);
            assert(sa0.remove_keys(Set::empty()) =~= sa0);
            assert(dm0.remove_keys(Set::empty()) =~= dm0);
        }
        let mut k: usize = 0;
        while k < diff.removed.len()
            invariant
                k <= diff.removed.len(),
                removed == views(diff.removed@),
                st.as_map() == st0.remove_keys(set_of(removed.take(k as int))),
                po.as_map() == po0.remove_keys(set_of(removed.take(k as int))),
                pr.as_map() == pr0.remove_keys(set_of(removed.take(k as int))),
                sa.as_map() == sa0.remove_keys(set_of(removed.take(k as int))),
                dm.as_map() == dm0.remove_keys(set_of(removed.take(k as int))),
            decreases diff.removed.len() - k,
        {
            let name = diff.removed[k].as_str();
            let _ = st.remove(name);
            let _ = po.remove(name);
            let _ = pr.remove(name);
            let _ = sa.remove(name);
            let _ = dm.remove(name);
            proof {
                let s0 = set_of(removed.take(k as int));
                let s1 = set_of(removed.take(k + 1));
                lemma_set_of_push(removed.take(k as int), removed[k as int]);
                assert(removed.take(k + 1) =~= removed.take(k as int).push(removed[k as int]));
                assert(st.as_map() =~= st0.remove_keys(s1));
                assert(po.as_map() =~= po0.remove_keys(s1));
                assert(pr.as_map() =~= pr0.remove_keys(s1));
                assert(sa.as_map() =~= sa0.remove_keys(s1));
                assert(dm.as_map() =~= dm0.remove_keys(s1));
            }
            k = k + 1;
        }
        proof {
            assert(removed.take(diff.removed.len() as int) =~= removed);
            assert(set_of(removed) =~= removed.to_set());
        }
        self.service_states = st;
        self.service_ports = po;
        self.proxy_ports = pr;
        self.started_at = sa;
        self.service_domains = dm;
        let summary = if parts.len() == 0 {
            "no changes".to_owned()
        } else {
            join_strings(&parts, ", ")
        };
        let mut line = "[devx] config reloaded: ".to_owned();
        append_str(&mut line, summary.as_str());
        proof {
            assert(views(parts@) =~= crate::events::prefixed("restarted "@, views(diff.changed@))
                + crate::events::prefixed("added "@, views(diff.added@)) + crate::events::prefixed(
                "removed "@,
                views(diff.removed@),
            ));
        }
        self.log_entries.push(
            LogEntry { service: "devx".to_owned(), line, is_stderr: false, color: LogColor::Cyan },
        );
        proof {
            assert(self.service_domains.as_map().map_values(|d: String| d@) =~= dm0.map_values(
                |d: String| d@,
            ).remove_keys(removed.to_set()));
            let a = old(self);
            let b = &*self;
            assert(b.names() == (a.names() + added).filter(|n: Seq<char>| !removed.contains(n)));
            assert(b.colors() == a.colors().union_prefer_right(colors_for(added, added.len(), a.names().len())));
            assert(b.states() == a.states().remove_keys(removed.to_set()));
            assert(b.ports() == a.ports().remove_keys(removed.to_set()));
            assert(b.started() == a.started().remove_keys(removed.to_set()));
            assert(b.domains() == a.domains().remove_keys(removed.to_set()));
            assert(same_view(a, b));
            assert(b.logs().drop_last() == a.logs());
            assert(b.logs().last().line@ == "[devx] config reloaded: "@ + tui_reload_summary(
                added,
                removed,
                views(diff.changed@),
            ));
        }
    }

    /// Drops the oldest entries once the log grows past the high-water mark.
    pub fn trim_logs(&mut self)
        ensures
            same_tables(final(self), old(self)),
            same_view(final(self), old(self)),
            final(self).logs() == if old(self).logs().len() > LOG_HIGH_WATER {
                old(self).logs().skip(LOG_DROP as int)
            } else {
                old(self).logs()
            },
    {
        if self.log_entries.len() > LOG_HIGH_WATER {
            let mut all: Vec<LogEntry> = Vec::new();
            std::mem::swap(&mut all, &mut self.log_entries);
            let tail = all.split_off(LOG_DROP);
            self.log_entries = tail;
        }
    }
}

/// The members of `s`.
pub open spec fn set_of(s: Seq<Seq<char>>) -> Set<Seq<char>> {
    Set::new(|q: Seq<char>| s.contains(q))
}

proof fn lemma_set_of_push(s: Seq<Seq<char>>, x: Seq<char>)
    ensures
        set_of(s.push(x)) == set_of(s).insert(x),
{
    assert forall|q: Seq<char>| #[trigger] set_of(s.push(x)).contains(q) == set_of(s).insert(x).contains(q) by {
        if s.push(x).contains(q) {
            let i = s.push(x).index_of(q);
            if i < s.len() {
                assert(s[i] == q);
            }
        }
        if s.contains(q) {
            let i = s.index_of(q);
            assert(s.push(x)[i] == q);
        }
        if q == x {
            assert(s.push(x)[s.len() as int] == x);
        }
    }
    assert(set_of(s.push(x)) =~= set_of(s).insert(x));
}

/// The title bar: ` devx · {project}` with ` [{branch}]` when on a
/// branch, and ` · {proto}://*.localhost:{port}` once the vhost proxy is
/// bound.
pub open spec fn title_text(
    project: Seq<char>,
    branch: Option<Seq<char>>,
    vhost: Option<u16>,
    tls: bool,
) -> Seq<char> {
    let badge = match branch {
        Some(b) => " ["@ + b + "]"@,
        None => Seq::empty(),
    };
    match vhost {
        Some(port) => " devx · "@ + project + badge + " · "@ + (if tls {
            "https"@
        } else {
            "http"@
        }) + "://*.localhost:"@ + dec(port as nat),
        None => " devx · "@ + project + badge,
    }
}

/// The key help shown at the bottom of the dashboard.
pub fn help_text() -> (r: &'static str)
    ensures
        r@ == " q quit  r restart  ↑↓ scroll  tab/shift+tab select  enter/f filter  esc all"@,
{
    " q quit  r restart  ↑↓ scroll  tab/shift+tab select  enter/f filter  esc all"
}

impl App {
    /// The title bar's text.
    pub fn title(&self) -> (r: String)
        ensures
            r@ == title_text(self.project(), self.branch(), self.vhost(), self.vhost_tls()),
    {
        let mut t = " devx · ".to_owned();
        append_str(&mut t, self.project_name.as_str());
        match &self.branch {
            Some(b) => {
                append_str(&mut t, " [");
                append_str(&mut t, b.as_str());
                append_str(&mut t, "]");
            },
            None => {},
        }
        match self.vhost_port {
            Some(port) => {
                append_str(&mut t, " · ");
                if self.vhost_tls {
                    append_str(&mut t, "https");
                } else {
                    append_str(&mut t, "http");
                }
                append_str(&mut t, "://*.localhost:");
                append_dec(&mut t, port as u64);
            },
            None => {},
        }
        proof {
            assert(t@ =~= title_text(self.project(), self.branch(), self.vhost(), self.vhost_tls()));
        }
        t
    }

    /// The rows of the status table, one per listed service: its domain,
    /// its last state (stopped when none was reported), its ports, and its
    /// uptime from `uptimes` (seconds since each service's recorded start).
    pub fn service_rows(&self, uptimes: &StrMap<u64>) -> (r: Vec<ServiceInfo>)
        ensures
            r@.len() == self.names().len(),
            forall|i: int|
                0 <= i < r@.len() ==> {
                    let k = self.names()[i];
                    &&& (#[trigger] r@[i]).name@ == k
                    &&& ov(r@[i].domain) == (if self.domains().contains_key(k) {
                        Some(self.domains()[k])
                    } else {
                        None
                    })
                    &&& r@[i].state == (if self.states().contains_key(k) {
                        self.states()[k]
                    } else {
                        ServiceState::Stopped
                    })
                    &&& r@[i].actual_port == (if self.ports().contains_key(k) {
                        Some(self.ports()[k])
                    } else {
                        None
                    })
                    &&& r@[i].proxy_port == (if self.proxies().contains_key(k) {
                        Some(self.proxies()[k])
                    } else {
                        None
                    })
                    &&& ov(r@[i].uptime) == (match uptimes.lookup(k) {
                        Some(u) => Some(uptime_text(u as nat)),
                        None => None,
                    })
                },
    {
        let mut out: Vec<ServiceInfo> = Vec::new();
        let mut i: usize = 0;
        while i < self.service_names.len()
            invariant
                i <= self.service_names.len(),
                out@.len() == i,
                forall|j: int|
                    0 <= j < i ==> {
                        let k = self.names()[j];
                        &&& (#[trigger] out@[j]).name@ == k
                        &&& ov(out@[j].domain) == (if self.domains().contains_key(k) {
                            Some(self.domains()[k])
                        } else {
                            None
                        })
                        &&& out@[j].state == (if self.states().contains_key(k) {
                            self.states()[k]
                        } else {
                            ServiceState::Stopped
                        })
                        &&& out@[j].actual_port == (if self.ports().contains_key(k) {
                            Some(self.ports()[k])
                        } else {
                            None
                        })
                        &&& out@[j].proxy_port == (if self.proxies().contains_key(k) {
                            Some(self.proxies()[k])
                        } else {
                            None
                        })
                        &&& ov(out@[j].uptime) == (match uptimes.lookup(k) {
                            Some(u) => Some(uptime_text(u as nat)),
                            None => None,
                        })
                    },
            decreases self.service_names.len() - i,
        {
            let name = self.service_names[i].as_str();
            let state = match self.service_states.get(name) {
                Some(st) => st.duplicate(),
                None => ServiceState::Stopped,
            };
            let domain = match self.service_domains.get(name) {
                Some(d) => Some(d.clone()),
                None => None,
            };
            let actual_port = match self.service_ports.get(name) {
                Some(p) => Some(*p),
                None => None,
            };
            let proxy_port = match self.proxy_ports.get(name) {
                Some(p) => Some(*p),
                None => None,
            };
            let uptime = match uptimes.get(name) {
                Some(u) => Some(format_uptime(*u)),
                None => None,
            };
            out.push(
                ServiceInfo {
                    name: self.service_names[i].clone(),
                    domain,
                    state,
                    actual_port,
                    proxy_port,
                    uptime,
                },
            );
            i = i + 1;
        }
        out
    }

    /// The selected row.
    pub fn selected_index(&self) -> (r: usize)
        ensures
            r == self.selected(),
    {
        self.selected_service
    }

    /// How far the log pane is scrolled back.
    pub fn scroll_offset(&self) -> (r: usize)
        ensures
            r == self.scroll(),
    {
        self.scroll_offset
    }

    /// The log filter, if any.
    pub fn log_filter(&self) -> (r: Option<&str>)
        ensures
            match r {
                Some(f) => self.filter() == Some(f@),
                None => self.filter() is None,
            },
    {
        match &self.filter {
            Some(f) => Some(f.as_str()),
            None => None,
        }
    }

    /// Whether the dashboard is closing.
    pub fn should_quit(&self) -> (r: bool)
        ensures
            r == self.quitting(),
    {
        self.should_quit
    }

    /// The log pane's entries.
    pub fn log_entries(&self) -> (r: &Vec<LogEntry>)
        ensures
            r@ == self.logs(),
    {
        &self.log_entries
    }

    /// When each service was last started.
    pub fn started_at(&self) -> (r: &StrMap<Instant>)
        ensures
            r.as_map() == self.started(),
    {
        &self.started_at
    }

    /// The number of services listed.
    pub fn service_count(&self) -> (r: usize)
        ensures
            r == self.names().len(),
    {
        self.service_names.len()
    }
}

/// `b` is `a` after a reload described by `diff`.
pub open spec fn reloaded(a: &App, b: &App, diff: ConfigDiff) -> bool {
    let added = views(diff.added@);
    let removed = views(diff.removed@);
    &&& b.names() == (a.names() + added).filter(|n: Seq<char>| !removed.contains(n))
    &&& b.colors() == a.colors().union_prefer_right(colors_for(added, added.len(), a.names().len()))
    &&& b.states() == a.states().remove_keys(removed.to_set())
    &&& b.ports() == a.ports().remove_keys(removed.to_set())
    &&& b.proxies() == a.proxies().remove_keys(removed.to_set())
    &&& b.started() == a.started().remove_keys(removed.to_set())
    &&& b.domains() == a.domains().remove_keys(removed.to_set())
    &&& b.project() == a.project()
    &&& b.branch() == a.branch()
    &&& b.vhost() == a.vhost()
    &&& b.vhost_tls() == a.vhost_tls()
    &&& same_view(a, b)
    &&& b.logs().len() == a.logs().len() + 1
    &&& b.logs().drop_last() == a.logs()
    &&& b.logs().last().service@ == "devx"@
    &&& b.logs().last().line@ == "[devx] config reloaded: "@ + tui_reload_summary(
        added,
        removed,
        views(diff.changed@),
    )
    &&& !b.logs().last().is_stderr
    &&& b.logs().last().color == LogColor::Cyan
}

} // verus!
