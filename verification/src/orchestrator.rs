//! The orchestrator's decisions: in what order services start, which ports
//! they ask for, what the proxies and watchers serve, what a reload changes,
//! and what the status report says. The caller performs each step (binding
//! sockets, spawning processes) and hands back what happened.
use vstd::prelude::*;

use crate::config::{diff_of, opt_str, str_map, ConfigDiff, DevxConfig, PortMap, ServiceConfig};
use crate::control::{status_json, status_report, ServiceStatus};
use crate::git::{branch_domain, branch_domain_of, is_default_branch};
use crate::project::{opt_view, sanitized};
use crate::deps::{
    closure, graph_view, has_cycle, is_layering, resolve_order, resolve_with_filter, restrict,
    waves_view, DepError, DepGraph,
};
use crate::events::{state_label, ServiceState};
use crate::process::{launch_cmd, launch_env, launch_plan, LaunchPlan};
use crate::ports::{apply_offset, bound_port, got_preferred, BindOutcome, PortAllocation, PortAllocator};
use crate::strmap::{strs, StrMap};

verus! {

/// A list of strings, copied.
pub fn copy_strings(v: &Vec<String>) -> (r: Vec<String>)
    ensures
        r@ == v@,
{
    let mut out: Vec<String> = Vec::new();
    let mut i: usize = 0;
    while i < v.len()
        invariant
            i <= v.len(),
            out@ == v@.take(i as int),
        decreases v.len() - i,
    {
        out.push(v[i].clone());
        proof {
            assert(out@ =~= v@.take(i + 1));
        }
        i = i + 1;
    }
    proof {
        assert(v@.take(v.len() as int) =~= v@);
    }
    out
}

/// The dependency graph of a configuration: each service maps to the
/// services it depends on.
pub open spec fn services_graph(c: &DevxConfig) -> Map<Seq<char>, Seq<Seq<char>>> {
    Map::new(
        |k: Seq<char>| c.services.keys().contains(k),
        |k: Seq<char>| strs(c.services.lookup(k)->0.depends_on@),
    )
}

/// The graph of the requested services and what they depend on.
pub open spec fn filtered_graph(c: &DevxConfig, requested: Seq<String>) -> Map<
    Seq<char>,
    Seq<Seq<char>>,
> {
    restrict(services_graph(c), closure(services_graph(c), strs(requested).to_set()))
}

/// All names of the waves, wave after wave.
pub open spec fn flat(w: Seq<Vec<String>>) -> Seq<Seq<char>>
    decreases w.len(),
{
    if w.len() == 0 {
        Seq::empty()
    } else {
        flat(w.drop_last()) + strs(w.last()@)
    }
}

/// The ports one service asks for: an OS-assigned actual port, and, when
/// it configures a port, a proxy on that port shifted by the worktree
/// offset.
#[derive(Debug)]
pub struct PortRequest {
    pub service: String,
    pub proxy_preferred: Option<u16>,
}

/// Why starting (or reloading) cannot go on.
#[derive(Debug)]
pub enum StartError {
    /// The dependency graph has a cycle.
    Dependency(DepError),
    /// A name in the start order is not a configured service.
    UnknownService(String),
    /// A service is launched before it has an actual port.
    NoPort(String),
}

impl StartError {
    /// The error's message.
    pub fn message(&self) -> (s: String)
        ensures
            s@ == match *self {
                StartError::Dependency(_) => "dependency graph contains a cycle"@,
                StartError::UnknownService(n) => "service '"@ + n@ + "' not found in config"@,
                StartError::NoPort(n) => "no port allocated for '"@ + n@ + "'"@,
            },
    {
        match self {
            StartError::Dependency(e) => e.message(),
            StartError::UnknownService(n) => {
                let mut s = "service '".to_owned();
                crate::text::append_str(&mut s, n.as_str());
                crate::text::append_str(&mut s, "' not found in config");
                s
            },
            StartError::NoPort(n) => {
                let mut s = "no port allocated for '".to_owned();
                crate::text::append_str(&mut s, n.as_str());
                crate::text::append_str(&mut s, "'");
                s
            },
        }
    }
}

/// The proxy port a service with configured port `port` asks for.
pub open spec fn shifted(port: Option<u16>, offset: u16) -> Option<u16> {
    match port {
        Some(p) => Some(
            (if p + offset > u16::MAX {
                u16::MAX as int
            } else {
                p + offset
            }) as u16,
        ),
        None => None,
    }
}

/// Where a service proxy listens and where it forwards to.
#[derive(Debug)]
pub struct ProxyTarget {
    pub service: String,
    pub listen_port: u16,
    pub target_port: u16,
}

/// The service proxies among the first `n` services: each service that
/// configures a port and has both a proxy port and an actual port recorded,
/// as (name, proxy port, actual port).
pub open spec fn proxy_list(c: &DevxConfig, actual: PortMap, proxy: PortMap, n: nat) -> Seq<
    (Seq<char>, u16, u16),
>
    decreases n,
{
    if n == 0 {
        Seq::empty()
    } else {
        let prev = proxy_list(c, actual, proxy, (n - 1) as nat);
        let k = c.services.keys()[n - 1];
        if c.services.vals()[n - 1].port is Some && proxy.lookup(k) is Some && actual.lookup(
            k,
        ) is Some {
            prev.push((k, proxy.lookup(k)->0, actual.lookup(k)->0))
        } else {
            prev
        }
    }
}

/// The views of proxy targets.
pub open spec fn targets_view(v: Seq<ProxyTarget>) -> Seq<(Seq<char>, u16, u16)> {
    v.map_values(|t: ProxyTarget| (t.service@, t.listen_port, t.target_port))
}

/// The (domain, service) pairs of the first `n` services that set a domain.
pub open spec fn domain_list(c: &DevxConfig, n: nat) -> Seq<(Seq<char>, Seq<char>)>
    decreases n,
{
    if n == 0 {
        Seq::empty()
    } else {
        let prev = domain_list(c, (n - 1) as nat);
        match c.services.vals()[n - 1].domain {
            Some(d) => prev.push((d@, c.services.keys()[n - 1])),
            None => prev,
        }
    }
}

/// The names the leaf certificate covers: every configured domain, then
/// `*.localhost` unless already listed.
pub open spec fn tls_names(c: &DevxConfig) -> Seq<Seq<char>> {
    let ds = domain_list(c, c.services.keys().len()).map_values(
        |p: (Seq<char>, Seq<char>)| p.0,
    );
    if ds.contains("*.localhost"@) {
        ds
    } else {
        ds.push("*.localhost"@)
    }
}

/// The (service, directory) pairs of the first `n` services that are
/// watched for changes.
pub open spec fn watch_list(c: &DevxConfig, n: nat) -> Seq<(Seq<char>, Option<Seq<char>>)>
    decreases n,
{
    if n == 0 {
        Seq::empty()
    } else {
        let prev = watch_list(c, (n - 1) as nat);
        let svc = c.services.vals()[n - 1];
        if svc.watch {
            prev.push(
                (
                    c.services.keys()[n - 1],
                    match svc.dir {
                        Some(d) => Some(d@),
                        None => None,
                    },
                ),
            )
        } else {
            prev
        }
    }
}

/// The vhost routes of the first `n` services: each domain goes to the
/// last service (in configuration order) that sets it and has an actual
/// port.
pub open spec fn base_routes(c: &DevxConfig, actual: PortMap, n: nat) -> Map<Seq<char>, Seq<char>>
    decreases n,
{
    if n == 0 {
        Map::empty()
    } else {
        let prev = base_routes(c, actual, (n - 1) as nat);
        let k = c.services.keys()[n - 1];
        match c.services.vals()[n - 1].domain {
            Some(d) => if actual.lookup(k) is Some {
                prev.insert(d@, k)
            } else {
                prev
            },
            None => prev,
        }
    }
}

/// The branch-prefixed copies of `base`: on a branch other than the
/// default ones, `{sanitized branch}.{domain}` routes where `domain` does.
pub open spec fn branch_routes(base: Map<Seq<char>, Seq<char>>, branch: Option<Seq<char>>) -> Map<
    Seq<char>,
    Seq<char>,
> {
    match branch {
        Some(b) => if is_default_branch(b) {
            Map::empty()
        } else {
            let p = sanitized(b) + seq!['.'];
            Map::new(
                |e: Seq<char>|
                    e.len() >= p.len() && e.take(p.len() as int) == p && base.contains_key(
                        e.skip(p.len() as int),
                    ),
                |e: Seq<char>| base[e.skip(p.len() as int)],
            )
        },
        None => Map::empty(),
    }
}

/// The whole vhost routing table: the configured domains and their
/// branch-prefixed copies (which win where the two coincide).
pub open spec fn vhost_table(c: &DevxConfig, actual: PortMap, branch: Option<Seq<char>>) -> Map<
    Seq<char>,
    Seq<char>,
> {
    let base = base_routes(c, actual, c.services.keys().len());
    base.union_prefer_right(branch_routes(base, branch))
}

/// On a branch other than `main`, `master` and `HEAD`, the branch-prefixed
/// copy of a routed domain goes to the same service as the domain itself.
pub proof fn lemma_branch_route(
    c: &DevxConfig,
    actual: PortMap,
    branch: Seq<char>,
    domain: Seq<char>,
)
    requires
        branch != "main"@,
        branch != "master"@,
        branch != "HEAD"@,
        base_routes(c, actual, c.services.keys().len()).contains_key(domain),
    ensures
        ({
            let prefixed = sanitized(branch) + seq!['.'] + domain;
            &&& vhost_table(c, actual, Some(branch)).contains_key(prefixed)
            &&& vhost_table(c, actual, Some(branch))[prefixed] == base_routes(
                c,
                actual,
                c.services.keys().len(),
            )[domain]
        }),
{
    let p = sanitized(branch) + seq!['.'];
    let e = p + domain;
    assert(e.take(p.len() as int) =~= p);
    assert(e.skip(p.len() as int) =~= domain);
}

/// On `main`, `master` or `HEAD`, and outside git, only the configured
/// domains are routed: no branch-prefixed ones are added.
pub proof fn lemma_default_branch_routes(c: &DevxConfig, actual: PortMap, branch: Option<Seq<char>>)
    requires
        branch is Some ==> (branch->0 == "main"@ || branch->0 == "master"@ || branch->0 == "HEAD"@),
    ensures
        vhost_table(c, actual, branch) == base_routes(c, actual, c.services.keys().len()),
{
    let base = base_routes(c, actual, c.services.keys().len());
    assert(branch_routes(base, branch) =~= Map::<Seq<char>, Seq<char>>::empty());
    assert(base.union_prefer_right(Map::<Seq<char>, Seq<char>>::empty()) =~= base);
}

/// The entries of a status report, one per launched process in launch
/// order.
pub open spec fn status_entries_match(
    entries: Seq<ServiceStatus>,
    states: StrMap<ServiceState>,
    actual: PortMap,
    proxy: PortMap,
    uptimes: StrMap<u64>,
) -> bool {
    &&& entries.len() == states.keys().len()
    &&& forall|i: int|
        0 <= i < entries.len() ==> {
            let k = states.keys()[i];
            &&& (#[trigger] entries[i]).name@ == k
            &&& entries[i].state@ == state_label(states.vals()[i])
            &&& entries[i].port == actual.lookup(k)
            &&& entries[i].proxy_port == proxy.lookup(k)
            &&& entries[i].uptime_secs == uptimes.lookup(k)
        }
}

/// The session's bookkeeping: the configuration in force, the worktree
/// port offset, the ports recorded for each service, the allocator that
/// handed them out, and the state of each launched process.
pub struct Orchestrator {
    config: DevxConfig,
    port_offset: u16,
    actual_ports: PortMap,
    proxy_ports: PortMap,
    allocator: PortAllocator,
    states: StrMap<ServiceState>,
}

/// Every recorded port was handed out by the allocator.
pub open spec fn ports_handed_out(m: PortMap, handed: Set<u16>) -> bool {
    forall|i: int| 0 <= i < m.vals().len() ==> handed.contains(#[trigger] m.vals()[i])
}

impl Orchestrator {
    /// The configuration in force.
    pub closed spec fn cfg(&self) -> &DevxConfig {
        &self.config
    }

    /// The worktree port offset.
    pub closed spec fn offset(&self) -> u16 {
        self.port_offset
    }

    /// The actual port recorded for each service.
    pub closed spec fn actual(&self) -> PortMap {
        self.actual_ports
    }

    /// The proxy port recorded for each service.
    pub closed spec fn proxy(&self) -> PortMap {
        self.proxy_ports
    }

    /// The ports handed out this session.
    pub closed spec fn handed_out(&self) -> Set<u16> {
        self.allocator.handed_out()
    }

    /// The state of each launched process, by service.
    pub closed spec fn states(&self) -> StrMap<ServiceState> {
        self.states
    }

    /// Well-formed: recorded ports come from the allocator.
    pub closed spec fn wf(&self) -> bool {
        &&& ports_handed_out(self.actual_ports, self.allocator.handed_out())
        &&& ports_handed_out(self.proxy_ports, self.allocator.handed_out())
    }

    /// Every recorded port (actual or proxy) was handed out this session.
    pub proof fn lemma_recorded_ports(&self)
        requires
            self.wf(),
        ensures
            ports_handed_out(self.actual(), self.handed_out()),
            ports_handed_out(self.proxy(), self.handed_out()),
    {
    }

    /// A session for `config` with the worktree port offset `port_offset`;
    /// nothing allocated or launched yet.
    pub fn new(config: DevxConfig, port_offset: u16) -> (o: Self)
        ensures
            o.wf(),
            *o.cfg() == config,
            o.offset() == port_offset,
            o.actual().keys().len() == 0,
            o.proxy().keys().len() == 0,
            o.states().keys().len() == 0,
            o.handed_out() == Set::<u16>::empty(),
    {
        Orchestrator {
            config,
            port_offset,
            actual_ports: StrMap::new(),
            proxy_ports: StrMap::new(),
            allocator: PortAllocator::new(),
            states: StrMap::new(),
        }
    }

    /// The configuration in force.
    pub fn config(&self) -> (c: &DevxConfig)
        ensures
            c == self.cfg(),
    {
        &self.config
    }

    /// The dependency graph of the configuration.
    pub fn dep_graph(&self) -> (g: DepGraph)
        ensures
            graph_view(&g) == services_graph(self.cfg()),
    {
        let svcs = &self.config.services;
        let n = svcs.len();
        let mut g: DepGraph = StrMap::new();
        let mut i: usize = 0;
        while i < n
            invariant
                i <= n,
                n == svcs.keys().len(),
                n == svcs.vals().len(),
                svcs.keys().no_duplicates(),
                svcs == &self.config.services,
                g.keys() == svcs.keys().take(i as int),
                forall|j: int| 0 <= j < i ==> (#[trigger] g.vals()[j])@ == svcs.vals()[j].depends_on@,
                g.vals().len() == i,
            decreases n - i,
        {
            let k = svcs.key_at(i);
            let v = svcs.value_at(i);
            proof {
                assert(!svcs.keys().take(i as int).contains(svcs.keys()[i as int])) by {
                    if svcs.keys().take(i as int).contains(svcs.keys()[i as int]) {
                        let j = svcs.keys().take(i as int).index_of(svcs.keys()[i as int]);
                        assert(svcs.keys()[j] == svcs.keys()[i as int]);
                    }
                }
            }
            g.insert(k.clone(), copy_strings(&v.depends_on));
            proof {
                assert(g.keys() =~= svcs.keys().take(i + 1));
            }
            i = i + 1;
        }
        proof {
            assert(g.keys() =~= svcs.keys());
            use_type_invariant(svcs);
            svcs.lemma_inv();
            assert(graph_view(&g) =~= services_graph(&self.config)) by {
                assert forall|k: Seq<char>| #[trigger] g.keys().contains(k) implies strs(
                    g.lookup(k)->0@,
                ) == strs(svcs.lookup(k)->0.depends_on@) by {
                    let j = g.keys().index_of(k);
                    assert(g.keys()[j] == k);
                    assert(svcs.lookup(svcs.keys()[j]) == Some(svcs.vals()[j]));
                }
            }
        }
        g
    }

    /// The start order: every configured service, or with a filter the
    /// requested services and what they depend on, in dependency waves.
    /// Fails exactly when that graph has a dependency cycle.
    pub fn start_order(&self, filter: Option<&Vec<String>>) -> (r: Result<Vec<Vec<String>>, DepError>)
        ensures
            match filter {
                None => match r {
                    Ok(w) => is_layering(services_graph(self.cfg()), waves_view(w@)),
                    Err(_) => has_cycle(services_graph(self.cfg())),
                },
                Some(req) => match r {
                    Ok(w) => is_layering(filtered_graph(self.cfg(), req@), waves_view(w@)),
                    Err(_) => has_cycle(filtered_graph(self.cfg(), req@)),
                },
            },
            filter is None ==> (r is Err <==> has_cycle(services_graph(self.cfg()))),
            filter matches Some(req) ==> (r is Err <==> has_cycle(filtered_graph(self.cfg(), req@))),
    {
        let g = self.dep_graph();
        match filter {
            None => resolve_order(&g),
            Some(req) => resolve_with_filter(&g, req),
        }
    }

    /// The service names in start order (all services; on a dependency
    /// cycle, in configuration order).
    pub fn service_names(&self) -> (r: Vec<String>)
        ensures
            has_cycle(services_graph(self.cfg())) ==> strs(r@) == self.cfg().services.keys(),
            !has_cycle(services_graph(self.cfg())) ==> exists|w: Seq<Vec<String>>|
                is_layering(services_graph(self.cfg()), waves_view(w)) && strs(r@) == flat(w),
    {
        match self.start_order(None) {
            Ok(waves) => {
                let out = flatten(&waves);
                out
            },
            Err(_) => {
                let svcs = &self.config.services;
                let n = svcs.len();
                let mut out: Vec<String> = Vec::new();
                let mut i: usize = 0;
                while i < n
                    invariant
                        i <= n,
                        n == svcs.keys().len(),
                        svcs == &self.config.services,
                        strs(out@) == svcs.keys().take(i as int),
                    decreases n - i,
                {
                    let ghost before = out@;
                    out.push(svcs.key_at(i).clone());
                    proof {
                        assert(strs(out@) =~= strs(before).push(svcs.keys()[i as int]));
                        assert(svcs.keys().take(i + 1) =~= svcs.keys().take(i as int).push(
                            svcs.keys()[i as int],
                        ));
                    }
                    i = i + 1;
                }
                proof {
                    assert(svcs.keys().take(n as int) =~= svcs.keys());
                }
                out
            },
        }
    }

    /// The ports each service of `order` asks for, in order; fails on the
    /// first name that is not a configured service.
    pub fn port_requests(&self, order: &Vec<String>) -> (r: Result<Vec<PortRequest>, StartError>)
        ensures
            (r is Ok) <==> forall|i: int|
                0 <= i < order@.len() ==> #[trigger] self.cfg().services.lookup(order@[i]@) is Some,
            r matches Ok(v) ==> v@.len() == order@.len() && forall|i: int|
                0 <= i < v@.len() ==> (#[trigger] v@[i]).service@ == order@[i]@
                    && v@[i].proxy_preferred == shifted(
                    self.cfg().services.lookup(order@[i]@)->0.port,
                    self.offset(),
                ),
            r matches Err(e) ==> e matches StartError::UnknownService(n) && exists|i: int|
                0 <= i < order@.len() && order@[i]@ == n@ && self.cfg().services.lookup(n@) is None,
    {
        let mut out: Vec<PortRequest> = Vec::new();
        let mut i: usize = 0;
        while i < order.len()
            invariant
                i <= order.len(),
                out@.len() == i,
                forall|j: int| 0 <= j < i ==> #[trigger] self.cfg().services.lookup(order@[j]@) is Some,
                forall|j: int|
                    0 <= j < i ==> (#[trigger] out@[j]).service@ == order@[j]@
                        && out@[j].proxy_preferred == shifted(
                        self.cfg().services.lookup(order@[j]@)->0.port,
                        self.offset(),
                    ),
            decreases order.len() - i,
        {
            let name = &order[i];
            match self.config.services.get(name.as_str()) {
                Some(svc) => {
                    let proxy_preferred = match svc.port {
                        Some(p) => Some(apply_offset(p, self.port_offset)),
                        None => None,
                    };
                    out.push(PortRequest { service: name.clone(), proxy_preferred });
                },
                None => {
                    return Err(StartError::UnknownService(name.clone()));
                },
            }
            i = i + 1;
        }
        Ok(out)
    }

    /// Takes the OS-assigned `port` of binding attempt `attempt` as the
    /// actual port of `name`, unless this session already handed it out and
    /// retries remain (then the caller binds again).
    pub fn take_service_port(&mut self, name: &str, port: u16, attempt: u32) -> (accepted: bool)
        requires
            old(self).wf(),
        ensures
            final(self).wf(),
            final(self).cfg() == old(self).cfg(),
            final(self).offset() == old(self).offset(),
            final(self).proxy() == old(self).proxy(),
            final(self).states() == old(self).states(),
            accepted == PortAllocator::takes_any(old(self).handed_out(), port, attempt as int),
            accepted ==> PortMap::is_insert(old(self).actual(), final(self).actual(), name@, port)
                && final(self).handed_out() == old(self).handed_out().insert(port),
            !accepted ==> final(self).actual() == old(self).actual() && final(self).handed_out()
                == old(self).handed_out(),
    {
        match self.allocator.accept_any(port, attempt) {
            Some(a) => {
                proof {
            use_type_invariant(&self.actual_ports);
            self.actual_ports.lemma_inv();
        }
        let ghost before = self.actual_ports;
                self.actual_ports.insert(name.to_owned(), a.actual);
                proof {
                    let nv = self.actual_ports.vals();
                let ov = before.vals();
                assert forall|i: int| 0 <= i < nv.len() implies self.allocator.handed_out().contains(
                    #[trigger] nv[i],
                ) by {
                    if before.keys().contains(name@) {
                        let idx = before.keys().index_of(name@);
                        assert(nv == ov.update(idx, a.actual));
                        if i != idx {
                            assert(nv[i] == ov[i]);
                        }
                    } else {
                        assert(nv == ov.push(a.actual));
                        if i < ov.len() {
                            assert(nv[i] == ov[i]);
                        }
                    }
                }
                }
                true
            },
            None => false,
        }
    }

    /// Records the proxy port bound for `name`, which asked for `preferred`
    /// and got `outcome`. A port other than `preferred` counts as a
    /// fallback; one this session already handed out is refused (`None`,
    /// nothing changes) and the caller binds again.
    pub fn take_proxy_port(&mut self, name: &str, preferred: u16, outcome: BindOutcome) -> (r:
        Option<PortAllocation>)
        requires
            old(self).wf(),
        ensures
            final(self).wf(),
            final(self).cfg() == old(self).cfg(),
            final(self).offset() == old(self).offset(),
            final(self).actual() == old(self).actual(),
            final(self).states() == old(self).states(),
            if got_preferred(preferred, outcome) {
                r == Some(PortAllocation { preferred: Some(preferred), actual: preferred, remapped: false })
            } else if old(self).handed_out().contains(bound_port(outcome)) {
                r is None
            } else {
                r == Some(
                    PortAllocation {
                        preferred: Some(preferred),
                        actual: bound_port(outcome),
                        remapped: true,
                    },
                )
            },
            r matches Some(a) ==> PortMap::is_insert(old(self).proxy(), final(self).proxy(), name@, a.actual)
                && final(self).handed_out() == old(self).handed_out().insert(a.actual),
            r is None ==> final(self).proxy() == old(self).proxy() && final(self).handed_out()
                == old(self).handed_out(),
    {
        let a = match self.allocator.record_preferred(preferred, outcome) {
            Some(a) => a,
            None => {
                return None;
            },
        };
        proof {
            use_type_invariant(&self.proxy_ports);
            self.proxy_ports.lemma_inv();
        }
        let ghost before = self.proxy_ports;
        self.proxy_ports.insert(name.to_owned(), a.actual);
        proof {
            let nv = self.proxy_ports.vals();
            let ov = before.vals();
            assert forall|i: int| 0 <= i < nv.len() implies self.allocator.handed_out().contains(
                #[trigger] nv[i],
            ) by {
                if before.keys().contains(name@) {
                    let idx = before.keys().index_of(name@);
                    assert(nv == ov.update(idx, a.actual));
                    if i != idx {
                        assert(nv[i] == ov[i]);
                    }
                } else {
                    assert(nv == ov.push(a.actual));
                    if i < ov.len() {
                        assert(nv[i] == ov[i]);
                    }
                }
            }
        }
        Some(a)
    }

    /// The service proxies to start: each service that configures a port
    /// and has its proxy and actual ports recorded, in configuration order.
    pub fn proxy_targets(&self) -> (r: Vec<ProxyTarget>)
        ensures
            targets_view(r@) == proxy_list(
                self.cfg(),
                self.actual(),
                self.proxy(),
                self.cfg().services.keys().len(),
            ),
    {
        let svcs = &self.config.services;
        let n = svcs.len();
        let mut out: Vec<ProxyTarget> = Vec::new();
        let mut i: usize = 0;
        while i < n
            invariant
                i <= n,
                n == svcs.keys().len(),
                n == svcs.vals().len(),
                svcs == &self.config.services,
                targets_view(out@) == proxy_list(
                    &self.config,
                    self.actual_ports,
                    self.proxy_ports,
                    i as nat,
                ),
            decreases n - i,
        {
            let k = svcs.key_at(i);
            let v = svcs.value_at(i);
            if v.port.is_some() {
                match (self.proxy_ports.get(k.as_str()), self.actual_ports.get(k.as_str())) {
                    (Some(pp), Some(ap)) => {
                        let ghost before = out@;
                        out.push(ProxyTarget { service: k.clone(), listen_port: *pp, target_port: *ap });
                        proof {
                            assert(targets_view(out@) =~= targets_view(before).push(
                                (k@, *pp, *ap),
                            ));
                        }
                    },
                    _ => {},
                }
            }
            i = i + 1;
        }
        out
    }

    /// The (domain, service) pairs of the services that set a domain, in
    /// configuration order.
    pub fn domain_services(&self) -> (r: Vec<(String, String)>)
        ensures
            crate::process::pairs_view(r@) == domain_list(
                self.cfg(),
                self.cfg().services.keys().len(),
            ),
    {
        let svcs = &self.config.services;
        let n = svcs.len();
        let mut out: Vec<(String, String)> = Vec::new();
        let mut i: usize = 0;
        while i < n
            invariant
                i <= n,
                n == svcs.keys().len(),
                n == svcs.vals().len(),
                svcs == &self.config.services,
                crate::process::pairs_view(out@) == domain_list(&self.config, i as nat),
            decreases n - i,
        {
            let k = svcs.key_at(i);
            let v = svcs.value_at(i);
            match &v.domain {
                Some(d) => {
                    let ghost before = out@;
                    out.push((d.clone(), k.clone()));
                    proof {
                        assert(crate::process::pairs_view(out@) =~= crate::process::pairs_view(
                            before,
                        ).push((d@, k@)));
                    }
                },
                None => {},
            }
            i = i + 1;
        }
        out
    }

    /// The names for the leaf certificate: the configured domains and
    /// `*.localhost`.
    pub fn tls_domains(&self) -> (r: Vec<String>)
        ensures
            strs(r@) == tls_names(self.cfg()),
    {
        let pairs = self.domain_services();
        let mut out: Vec<String> = Vec::new();
        let mut has_wildcard = false;
        let ghost ds = domain_list(&self.config, self.config.services.keys().len()).map_values(
            |p: (Seq<char>, Seq<char>)| p.0,
        );
        let mut i: usize = 0;
        while i < pairs.len()
            invariant
                i <= pairs.len(),
                crate::process::pairs_view(pairs@) == domain_list(
                    &self.config,
                    self.config.services.keys().len(),
                ),
                ds == domain_list(&self.config, self.config.services.keys().len()).map_values(
                    |p: (Seq<char>, Seq<char>)| p.0,
                ),
                strs(out@) == ds.take(i as int),
                has_wildcard == ds.take(i as int).contains("*.localhost"@),
            decreases pairs.len() - i,
        {
            let d = &pairs[i].0;
            proof {
                assert(ds[i as int] == d@);
                assert(ds.take(i + 1) =~= ds.take(i as int).push(d@));
            }
            if crate::text::str_eq(d.as_str(), "*.localhost") {
                has_wildcard = true;
            }
            let ghost before = out@;
            out.push(d.clone());
            proof {
                assert(strs(out@) =~= strs(before).push(d@));
                assert(ds.take(i + 1).contains("*.localhost"@) == (ds.take(i as int).contains(
                    "*.localhost"@,
                ) || d@ == "*.localhost"@)) by {
                    if ds.take(i + 1).contains("*.localhost"@) {
                        let j = ds.take(i + 1).index_of("*.localhost"@);
                        if j < i {
                            assert(ds.take(i as int)[j] == "*.localhost"@);
                        }
                    }
                    if d@ == "*.localhost"@ {
                        assert(ds.take(i + 1)[i as int] == d@);
                    }
                    if ds.take(i as int).contains("*.localhost"@) {
                        let j = ds.take(i as int).index_of("*.localhost"@);
                        assert(ds.take(i + 1)[j] == "*.localhost"@);
                    }
                }
            }
            i = i + 1;
        }
        proof {
            assert(ds.take(pairs.len() as int) =~= ds);
        }
        if !has_wildcard {
            let ghost before = out@;
            out.push("*.localhost".to_owned());
            proof {
                assert(strs(out@) =~= strs(before).push("*.localhost"@));
            }
        }
        out
    }

    /// The services whose directories are watched, with their configured
    /// directories, in configuration order.
    pub fn watch_targets(&self) -> (r: Vec<(String, Option<String>)>)
        ensures
            r@.map_values(
                |p: (String, Option<String>)|
                    (
                        p.0@,
                        match p.1 {
                            Some(d) => Some(d@),
                            None => None,
                        },
                    ),
            ) == watch_list(self.cfg(), self.cfg().services.keys().len()),
    {
        let svcs = &self.config.services;
        let n = svcs.len();
        let mut out: Vec<(String, Option<String>)> = Vec::new();
        let ghost f = |p: (String, Option<String>)|
            (
                p.0@,
                match p.1 {
                    Some(d) => Some(d@),
                    None => None,
                },
            );
        let mut i: usize = 0;
        while i < n
            invariant
                i <= n,
                n == svcs.keys().len(),
                n == svcs.vals().len(),
                svcs == &self.config.services,
                f == (|p: (String, Option<String>)|
                    (
                        p.0@,
                        match p.1 {
                            Some(d) => Some(d@),
                            None => None,
                        },
                    )),
                out@.map_values(f) == watch_list(&self.config, i as nat),
            decreases n - i,
        {
            let k = svcs.key_at(i);
            let v = svcs.value_at(i);
            if v.watch {
                let dir = match &v.dir {
                    Some(d) => Some(d.clone()),
                    None => None,
                };
                let ghost before = out@;
                out.push((k.clone(), dir));
                proof {
                    assert(out@.map_values(f) =~= before.map_values(f).push(f(out@.last())));
                }
            }
            i = i + 1;
        }
        out
    }

    /// The vhost routing table, domain to service: every configured domain
    /// of a service with an actual port, and, on `branch` (when it is not a
    /// default branch), each such domain's branch-prefixed copy.
    pub fn vhost_routes(&self, branch: Option<&str>) -> (r: StrMap<String>)
        ensures
            str_map(r) == vhost_table(self.cfg(), self.actual(), opt_view(branch)),
    {
        let svcs = &self.config.services;
        let n = svcs.len();
        let mut routes: StrMap<String> = StrMap::new();
        proof {
            assert(str_map(routes) =~= Map::<Seq<char>, Seq<char>>::empty());
        }
        let mut i: usize = 0;
        while i < n
            invariant
                i <= n,
                n == svcs.keys().len(),
                n == svcs.vals().len(),
                svcs == &self.config.services,
                str_map(routes) == base_routes(&self.config, self.actual_ports, i as nat),
            decreases n - i,
        {
            let k = svcs.key_at(i);
            let v = svcs.value_at(i);
            match &v.domain {
                Some(d) => {
                    if self.actual_ports.contains_key(k.as_str()) {
                        let ghost before = routes;
                        routes.insert(d.clone(), k.clone());
                        proof {
                            lemma_str_map_insert(before, routes, d@, k@);
                        }
                    }
                },
                None => {},
            }
            i = i + 1;
        }
        let ghost base = str_map(routes);
        let m = routes.len();
        let mut bk: Vec<String> = Vec::new();
        let mut bv: Vec<String> = Vec::new();
        let mut j: usize = 0;
        while j < m
            invariant
                j <= m,
                m == routes.keys().len(),
                m == routes.vals().len(),
                strs(bk@) == routes.keys().take(j as int),
                strs(bv@) == routes.vals().map_values(|s: String| s@).take(j as int),
            decreases m - j,
        {
            let ghost b0 = bk@;
            let ghost b1 = bv@;
            bk.push(routes.key_at(j).clone());
            bv.push(routes.value_at(j).clone());
            proof {
                assert(strs(bk@) =~= strs(b0).push(routes.keys()[j as int]));
                assert(strs(bv@) =~= strs(b1).push(routes.vals()[j as int]@));
                assert(routes.keys().take(j + 1) =~= routes.keys().take(j as int).push(
                    routes.keys()[j as int],
                ));
                assert(routes.vals().map_values(|s: String| s@).take(j + 1) =~= routes.vals().map_values(
                    |s: String| s@,
                ).take(j as int).push(routes.vals()[j as int]@));
            }
            j = j + 1;
        }
        proof {
            use_type_invariant(&routes);
            routes.lemma_inv();
            assert(routes.keys().take(m as int) =~= routes.keys());
            assert(routes.vals().map_values(|s: String| s@).take(m as int) =~= routes.vals().map_values(
                |s: String| s@,
            ));
            assert forall|q: int| 0 <= q < m implies base.contains_key(#[trigger] strs(bk@)[q])
                && base[strs(bk@)[q]] == strs(bv@)[q] by {
                assert(routes.lookup(routes.keys()[q]) == Some(routes.vals()[q]));
            }
            assert forall|x: Seq<char>| base.contains_key(x) implies #[trigger] strs(bk@).contains(x) by {
                assert(routes.keys().contains(x));
            }
        }
        let ghost keys = strs(bk@);
        let is_default = match branch {
            Some(b) => crate::text::str_eq(b, "main") || crate::text::str_eq(b, "master")
                || crate::text::str_eq(b, "HEAD"),
            None => true,
        };
        if is_default {
            proof {
                assert(branch_routes(base, opt_view(branch)) =~= Map::<Seq<char>, Seq<char>>::empty());
                assert(base.union_prefer_right(branch_routes(base, opt_view(branch))) =~= base);
            }
            return routes;
        }
        let b = match branch {
            Some(b) => b,
            None => {
                return routes;
            },
        };
        let ghost p = sanitized(b@) + seq!['.'];
        let ghost plen = p.len() as int;
        let mut t: usize = 0;
        while t < m
            invariant
                t <= m,
                m == bk@.len(),
                m == bv@.len(),
                branch == Some(b),
                !is_default_branch(b@),
                p == sanitized(b@) + seq!['.'],
                plen == p.len(),
                keys == strs(bk@),
                forall|q: int| 0 <= q < m ==> base.contains_key(#[trigger] strs(bk@)[q]) && base[strs(
                    bk@,
                )[q]] == strs(bv@)[q],
                str_map(routes) == base.union_prefer_right(
                    Map::new(
                        |e: Seq<char>|
                            e.len() >= plen && e.take(plen) == p && keys.take(t as int).contains(
                                e.skip(plen),
                            ),
                        |e: Seq<char>| base[e.skip(plen)],
                    ),
                ),
            decreases m - t,
        {
            let ghost before = routes;
            let bd = branch_domain(branch, bk[t].as_str());
            let ghost kt = keys[t as int];
            proof {
                assert(bk@[t as int]@ == kt);
            }
            match bd {
                Some(e) => {
                    let ghost ev = e@;
                    proof {
                        assert(ev == p + kt);
                    }
                    routes.insert(e, bv[t].clone());
                    proof {
                        lemma_str_map_insert(before, routes, ev, strs(bv@)[t as int]);
                        let old_ex = Map::new(
                            |e: Seq<char>|
                                e.len() >= plen && e.take(plen) == p && keys.take(t as int).contains(
                                    e.skip(plen),
                                ),
                            |e: Seq<char>| base[e.skip(plen)],
                        );
                        let new_ex = Map::new(
                            |e: Seq<char>|
                                e.len() >= plen && e.take(plen) == p && keys.take(t + 1).contains(
                                    e.skip(plen),
                                ),
                            |e: Seq<char>| base[e.skip(plen)],
                        );
                        assert(ev.take(plen) =~= p);
                        assert(ev.skip(plen) =~= kt);
                        assert(keys.take(t + 1) =~= keys.take(t as int).push(kt));
                        assert forall|x: Seq<char>| #[trigger] new_ex.contains_key(x) == (
                        old_ex.contains_key(x) || x == ev) by {
                            if x.len() >= plen && x.take(plen) == p && x.skip(plen) == kt {
                                assert(x =~= x.take(plen) + x.skip(plen));
                                assert(x =~= ev);
                            }
                            if keys.take(t as int).contains(x.skip(plen)) {
                                let w = keys.take(t as int).index_of(x.skip(plen));
                                assert(keys.take(t + 1)[w] == x.skip(plen));
                            }
                            if keys.take(t + 1).contains(x.skip(plen)) {
                                let w = keys.take(t + 1).index_of(x.skip(plen));
                                if w < t {
                                    assert(keys.take(t as int)[w] == x.skip(plen));
                                }
                            }
                            if x == ev {
                                assert(keys.take(t + 1)[t as int] == kt);
                            }
                        }
                        assert(base.union_prefer_right(new_ex) =~= base.union_prefer_right(
                            old_ex,
                        ).insert(ev, base[kt]));
                    }
                },
                None => {
                    proof {
                        assert(false);
                    }
                },
            }
            t = t + 1;
        }
        proof {
            assert(keys.take(m as int) =~= keys);
            let ex = Map::new(
                |e: Seq<char>|
                    e.len() >= plen && e.take(plen) == p && keys.take(m as int).contains(
                        e.skip(plen),
                    ),
                |e: Seq<char>| base[e.skip(plen)],
            );
            assert(ex =~= branch_routes(base, opt_view(branch))) by {
                assert forall|e: Seq<char>| ex.contains_key(e) == branch_routes(
                    base,
                    opt_view(branch),
                ).contains_key(e) by {
                    if e.len() >= plen && e.take(plen) == p {
                        if base.contains_key(e.skip(plen)) {
                            assert(keys.contains(e.skip(plen)));
                        }
                        if keys.contains(e.skip(plen)) {
                            let w = keys.index_of(e.skip(plen));
                            assert(base.contains_key(strs(bk@)[w]));
                        }
                    }
                }
            }
        }
        routes
    }

    /// The actual port recorded for `name`, if any.
    pub fn actual_port(&self, name: &str) -> (r: Option<u16>)
        ensures
            r == self.actual().lookup(name@),
    {
        match self.actual_ports.get(name) {
            Some(p) => Some(*p),
            None => None,
        }
    }

    /// The table of service `name`, if it is configured.
    pub fn service(&self, name: &str) -> (r: Option<&ServiceConfig>)
        ensures
            match r {
                Some(v) => self.cfg().services.lookup(name@) == Some(*v),
                None => self.cfg().services.lookup(name@) is None,
            },
    {
        self.config.services.get(name)
    }

    /// Plans the launch of `name` with the ports recorded so far, the
    /// contents of its `package.json` and the entries of its `.env` file.
    /// Fails if `name` is not configured or has no actual port yet.
    pub fn plan_launch(&self, name: &str, package_json: Option<&str>, dotenv: &Vec<(String, String)>) -> (r: Result<LaunchPlan, StartError>)
        ensures
            self.cfg().services.lookup(name@) is None ==> (r matches Err(StartError::UnknownService(n)) && n@ == name@),
            self.cfg().services.lookup(name@) is Some && self.actual().lookup(name@) is None ==> (r matches Err(StartError::NoPort(n)) && n@ == name@),
            self.cfg().services.lookup(name@) is Some && self.actual().lookup(name@) is Some ==> (r matches Ok(p) && {
                let config = self.cfg().services.lookup(name@)->0;
                &&& p.cmd@ == launch_cmd(name@, config, self.actual(), self.proxy(), crate::process::opt_view(package_json))
                &&& crate::process::pairs_view(p.env@) == launch_env(name@, config, self.actual(), self.proxy(), crate::process::opt_view(package_json), crate::process::pairs_view(dotenv@))
                &&& opt_str(p.health_url) == match config.health {
                    Some(h) => Some(crate::config::interpolated(h@, name@, self.actual(), self.proxy())),
                    None => None,
                }
            }),
    {
        match self.config.services.get(name) {
            None => Err(StartError::UnknownService(name.to_owned())),
            Some(svc) => {
                if !self.actual_ports.contains_key(name) {
                    return Err(StartError::NoPort(name.to_owned()));
                }
                Ok(launch_plan(name, svc, &self.actual_ports, &self.proxy_ports, package_json, dotenv))
            },
        }
    }

    /// Switches to `new_config` and reports how its services differ from
    /// the old ones; ports and process states stay as they are.
    pub fn reload(&mut self, new_config: DevxConfig) -> (d: ConfigDiff)
        requires
            old(self).wf(),
        ensures
            final(self).wf(),
            diff_of(old(self).cfg(), &new_config, d),
            *final(self).cfg() == new_config,
            final(self).offset() == old(self).offset(),
            final(self).actual() == old(self).actual(),
            final(self).proxy() == old(self).proxy(),
            final(self).states() == old(self).states(),
            final(self).handed_out() == old(self).handed_out(),
    {
        let d = self.config.diff(&new_config);
        self.config = new_config;
        d
    }

    /// Records the state of the process of `name`.
    pub fn record_state(&mut self, name: &str, state: ServiceState)
        requires
            old(self).wf(),
        ensures
            final(self).wf(),
            StrMap::is_insert(old(self).states(), final(self).states(), name@, state),
            final(self).cfg() == old(self).cfg(),
            final(self).offset() == old(self).offset(),
            final(self).actual() == old(self).actual(),
            final(self).proxy() == old(self).proxy(),
            final(self).handed_out() == old(self).handed_out(),
    {
        self.states.insert(name.to_owned(), state);
    }

    /// Forgets the process of `name` (its service was removed).
    pub fn forget(&mut self, name: &str)
        requires
            old(self).wf(),
        ensures
            final(self).wf(),
            final(self).states().lookup(name@) is None,
            forall|q: Seq<char>| q != name@ ==> #[trigger] final(self).states().lookup(q) == old(self).states().lookup(q),
            final(self).cfg() == old(self).cfg(),
            final(self).offset() == old(self).offset(),
            final(self).actual() == old(self).actual(),
            final(self).proxy() == old(self).proxy(),
            final(self).handed_out() == old(self).handed_out(),
    {
        let _ = self.states.remove(name);
    }

    /// The status report of instance `project_id`: one entry per launched
    /// process, with its state, its ports and its uptime (from `uptimes`).
    pub fn status_report(&self, project_id: &str, uptimes: &StrMap<u64>) -> (r: String)
        ensures
            exists|entries: Seq<ServiceStatus>|
                status_entries_match(entries, self.states(), self.actual(), self.proxy(), *uptimes)
                    && r@ == status_report(project_id@, entries),
    {
        let n = self.states.len();
        let mut entries: Vec<ServiceStatus> = Vec::new();
        let mut i: usize = 0;
        while i < n
            invariant
                i <= n,
                n == self.states.keys().len(),
                n == self.states.vals().len(),
                entries@.len() == i,
                forall|j: int|
                    0 <= j < i ==> {
                        let k = self.states.keys()[j];
                        &&& (#[trigger] entries@[j]).name@ == k
                        &&& entries@[j].state@ == state_label(self.states.vals()[j])
                        &&& entries@[j].port == self.actual_ports.lookup(k)
                        &&& entries@[j].proxy_port == self.proxy_ports.lookup(k)
                        &&& entries@[j].uptime_secs == uptimes.lookup(k)
                    },
            decreases n - i,
        {
            let k = self.states.key_at(i);
            let st = self.states.value_at(i);
            let port = match self.actual_ports.get(k.as_str()) {
                Some(p) => Some(*p),
                None => None,
            };
            let proxy_port = match self.proxy_ports.get(k.as_str()) {
                Some(p) => Some(*p),
                None => None,
            };
            let uptime_secs = match uptimes.get(k.as_str()) {
                Some(u) => Some(*u),
                None => None,
            };
            entries.push(
                ServiceStatus {
                    name: k.clone(),
                    state: st.label().to_owned(),
                    port,
                    proxy_port,
                    uptime_secs,
                },
            );
            i = i + 1;
        }
        let r = status_json(project_id, &entries);
        proof {
            assert(status_entries_match(entries@, self.states, self.actual_ports, self.proxy_ports, *uptimes));
        }
        r
    }
}

/// Storing `v` under `k` in a string map stores it in the map's view.
pub proof fn lemma_str_map_insert(old: StrMap<String>, new: StrMap<String>, k: Seq<char>, v: Seq<char>)
    requires
        new.lookup(k) is Some,
        new.lookup(k)->0@ == v,
        forall|q: Seq<char>| q != k ==> #[trigger] new.lookup(q) == old.lookup(q),
    ensures
        str_map(new) == str_map(old).insert(k, v),
{
    assert forall|q: Seq<char>| new.keys().contains(q) == (old.keys().contains(q) || q == k) by {
        if q != k {
            assert(new.lookup(q) == old.lookup(q));
        }
    }
    assert(str_map(new) =~= str_map(old).insert(k, v));
}

/// The names of all waves, in order.
pub fn flatten(waves: &Vec<Vec<String>>) -> (r: Vec<String>)
    ensures
        strs(r@) == flat(waves@),
{
    let mut out: Vec<String> = Vec::new();
    let mut i: usize = 0;
    while i < waves.len()
        invariant
            i <= waves.len(),
            strs(out@) == flat(waves@.take(i as int)),
        decreases waves.len() - i,
    {
        let w = &waves[i];
        let ghost start = strs(out@);
        let mut j: usize = 0;
        while j < w.len()
            invariant
                j <= w.len(),
                strs(out@) == start + strs(w@.take(j as int)),
            decreases w.len() - j,
        {
            let ghost before = out@;
            out.push(w[j].clone());
            proof {
                assert(strs(out@) =~= strs(before).push(w@[j as int]@));
                assert(strs(w@.take(j + 1)) =~= strs(w@.take(j as int)).push(w@[j as int]@));
            }
            j = j + 1;
        }
        proof {
            assert(w@.take(w.len() as int) =~= w@);
            assert(waves@.take(i + 1).drop_last() =~= waves@.take(i as int));
        }
        i = i + 1;
    }
    proof {
        assert(waves@.take(waves.len() as int) =~= waves@);
    }
    out
}


/// One step of applying a configuration change.
#[derive(Debug)]
pub enum ReloadStep {
    /// Stop the process of a removed service and forget it.
    Stop(String),
    /// Restart a service whose table changed.
    Restart(String),
    /// Allocate ports for and start an added service.
    Start(String),
}

/// The steps that apply `diff`: every removed service stops, then every
/// changed one restarts, then every added one starts, each group in the
/// diff's order.
pub fn reload_steps(diff: &ConfigDiff) -> (r: Vec<ReloadStep>)
    ensures
        r@.len() == diff.removed@.len() + diff.changed@.len() + diff.added@.len(),
        forall|i: int|
            0 <= i < diff.removed@.len() ==> ((#[trigger] r@[i]) matches ReloadStep::Stop(n) && n@
                == diff.removed@[i]@),
        forall|i: int|
            0 <= i < diff.changed@.len() ==> ((#[trigger] r@[diff.removed@.len() + i])
                matches ReloadStep::Restart(n) && n@ == diff.changed@[i]@),
        forall|i: int|
            0 <= i < diff.added@.len() ==> ((#[trigger] r@[diff.removed@.len() + diff.changed@.len()
                + i]) matches ReloadStep::Start(n) && n@ == diff.added@[i]@),
{
    let mut out: Vec<ReloadStep> = Vec::new();
    let mut i: usize = 0;
    while i < diff.removed.len()
        invariant
            i <= diff.removed@.len(),
            out@.len() == i,
            forall|j: int|
                0 <= j < i ==> ((#[trigger] out@[j]) matches ReloadStep::Stop(n) && n@
                    == diff.removed@[j]@),
        decreases diff.removed.len() - i,
    {
        out.push(ReloadStep::Stop(diff.removed[i].clone()));
        i = i + 1;
    }
    let base1 = diff.removed.len();
    let mut i: usize = 0;
    while i < diff.changed.len()
        invariant
            base1 == diff.removed@.len(),
            i <= diff.changed@.len(),
            out@.len() == base1 + i,
            forall|j: int|
                0 <= j < base1 ==> ((#[trigger] out@[j]) matches ReloadStep::Stop(n) && n@
                    == diff.removed@[j]@),
            forall|j: int|
                0 <= j < i ==> ((#[trigger] out@[base1 + j]) matches ReloadStep::Restart(n) && n@
                    == diff.changed@[j]@),
        decreases diff.changed.len() - i,
    {
        out.push(ReloadStep::Restart(diff.changed[i].clone()));
        proof {
            assert(out@[base1 + i] matches ReloadStep::Restart(n) && n@ == diff.changed@[i as int]@);
        }
        i = i + 1;
    }
    let base2 = out.len();
    let mut i: usize = 0;
    while i < diff.added.len()
        invariant
            base1 == diff.removed@.len(),
            base2 == base1 + diff.changed@.len(),
            i <= diff.added@.len(),
            out@.len() == base2 + i,
            forall|j: int|
                0 <= j < base1 ==> ((#[trigger] out@[j]) matches ReloadStep::Stop(n) && n@
                    == diff.removed@[j]@),
            forall|j: int|
                0 <= j < diff.changed@.len() ==> ((#[trigger] out@[base1 + j])
                    matches ReloadStep::Restart(n) && n@ == diff.changed@[j]@),
            forall|j: int|
                0 <= j < i ==> ((#[trigger] out@[base2 + j]) matches ReloadStep::Start(n) && n@
                    == diff.added@[j]@),
        decreases diff.added.len() - i,
    {
        out.push(ReloadStep::Start(diff.added[i].clone()));
        proof {
            assert(out@[base2 + i] matches ReloadStep::Start(n) && n@ == diff.added@[i as int]@);
        }
        i = i + 1;
    }
    out
}

impl Orchestrator {
    /// Whether `name` can be restarted (after its running process, if any,
    /// was stopped): it must be configured, else the error says
    /// `service '{name}' not found`.
    pub fn restart_check(&self, name: &str) -> (r: Result<(), String>)
        ensures
            (r is Ok) <==> self.cfg().services.lookup(name@) is Some,
            r matches Err(m) ==> m@ == "service '"@ + name@ + "' not found"@,
    {
        if self.config.services.contains_key(name) {
            Ok(())
        } else {
            let mut s = "service '".to_owned();
            crate::text::append_str(&mut s, name);
            crate::text::append_str(&mut s, "' not found");
            Err(s)
        }
    }

    /// A health report for `name`: it is recorded when `name` has a process
    /// (`running`), and ignored otherwise (the process was removed).
    pub fn apply_health(&mut self, name: &str, state: ServiceState, running: bool)
        requires
            old(self).wf(),
        ensures
            final(self).wf(),
            running ==> StrMap::is_insert(old(self).states(), final(self).states(), name@, state),
            !running ==> final(self).states() == old(self).states(),
            final(self).cfg() == old(self).cfg(),
            final(self).offset() == old(self).offset(),
            final(self).actual() == old(self).actual(),
            final(self).proxy() == old(self).proxy(),
            final(self).handed_out() == old(self).handed_out(),
    {
        if running {
            self.record_state(name, state);
        }
    }
}

} // verus!
