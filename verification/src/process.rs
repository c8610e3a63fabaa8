//! How a service is launched (its command line and environment) and how
//! its health check decides, probe by probe.
use vstd::prelude::*;

use crate::config::{interpolate, interpolated, PortMap, ServiceConfig};
use crate::detect::{detected, injected, Framework};
use crate::events::{opt_text, ServiceState};
use crate::strmap::StrMap;
use crate::text::{dec, dec_string};

verus! {

/// The views of (key, value) string pairs.
pub open spec fn pairs_view(v: Seq<(String, String)>) -> Seq<(Seq<char>, Seq<char>)> {
    v.map_values(|e: (String, String)| (e.0@, e.1@))
}

/// The actual port of service `name`, or 0 when none is recorded.
pub open spec fn actual_port_of(name: Seq<char>, actual: PortMap) -> nat {
    match actual.lookup(name) {
        Some(p) => p as nat,
        None => 0,
    }
}

/// The command that is run for service `name` (through `sh -c`): the
/// configured command, interpolated, with the framework's port flag added
/// unless the service is unmanaged or the command names its port.
pub open spec fn launch_cmd(
    name: Seq<char>,
    config: ServiceConfig,
    actual: PortMap,
    proxy: PortMap,
    pkg: Option<Seq<char>>,
) -> Seq<char> {
    let cmd = interpolated(config.cmd@, name, actual, proxy);
    let f = detected(cmd, pkg);
    if !config.managed {
        cmd
    } else {
        match injected(f, cmd, actual_port_of(name, actual)) {
            Some(c) => c,
            None => cmd,
        }
    }
}

/// The entries of the service's `.env` file that the configuration does not
/// set itself, their values interpolated, in file order.
pub open spec fn dotenv_part(
    name: Seq<char>,
    config: ServiceConfig,
    actual: PortMap,
    proxy: PortMap,
    dotenv: Seq<(Seq<char>, Seq<char>)>,
) -> Seq<(Seq<char>, Seq<char>)> {
    dotenv.filter(|e: (Seq<char>, Seq<char>)| !config.env.keys().contains(e.0)).map_values(
        |e: (Seq<char>, Seq<char>)| (e.0, interpolated(e.1, name, actual, proxy)),
    )
}

/// The configured environment, values interpolated, in configuration order.
pub open spec fn config_part(
    name: Seq<char>,
    config: ServiceConfig,
    actual: PortMap,
    proxy: PortMap,
) -> Seq<(Seq<char>, Seq<char>)> {
    Seq::new(
        config.env.keys().len(),
        |i: int| (config.env.keys()[i], interpolated(config.env.vals()[i]@, name, actual, proxy)),
    )
}

/// `PORT` set to the actual port, for a managed service whose framework
/// reads its port from there and whose configuration does not set `PORT`.
pub open spec fn port_part(
    name: Seq<char>,
    config: ServiceConfig,
    actual: PortMap,
    proxy: PortMap,
    pkg: Option<Seq<char>>,
) -> Seq<(Seq<char>, Seq<char>)> {
    let f = detected(interpolated(config.cmd@, name, actual, proxy), pkg);
    if (f == Framework::NextJs || f == Framework::Node) && config.managed
        && !config.env.keys().contains("PORT"@) {
        seq![("PORT"@, dec(actual_port_of(name, actual)))]
    } else {
        Seq::empty()
    }
}

/// The environment assignments of the launch, applied in order (a later
/// assignment of a key overrides an earlier one).
pub open spec fn launch_env(
    name: Seq<char>,
    config: ServiceConfig,
    actual: PortMap,
    proxy: PortMap,
    pkg: Option<Seq<char>>,
    dotenv: Seq<(Seq<char>, Seq<char>)>,
) -> Seq<(Seq<char>, Seq<char>)> {
    dotenv_part(name, config, actual, proxy, dotenv) + config_part(name, config, actual, proxy)
        + port_part(name, config, actual, proxy, pkg)
}

/// Everything needed to start one service.
#[derive(Debug)]
pub struct LaunchPlan {
    pub framework: Framework,
    pub cmd: String,
    pub env: Vec<(String, String)>,
    pub health_url: Option<String>,
}

/// Plans the launch of service `name` with table `config`, given the ports
/// allocated so far, the contents of the working directory's
/// `package.json` (if any), and the entries read from the service's
/// `.env` file (in file order).
pub fn launch_plan(
    name: &str,
    config: &ServiceConfig,
    actual_ports: &PortMap,
    proxy_ports: &PortMap,
    package_json: Option<&str>,
    dotenv: &Vec<(String, String)>,
) -> (p: LaunchPlan)
    ensures
        p.framework == detected(
            interpolated(config.cmd@, name@, *actual_ports, *proxy_ports),
            opt_view(package_json),
        ),
        p.cmd@ == launch_cmd(name@, *config, *actual_ports, *proxy_ports, opt_view(package_json)),
        pairs_view(p.env@) == launch_env(
            name@,
            *config,
            *actual_ports,
            *proxy_ports,
            opt_view(package_json),
            pairs_view(dotenv@),
        ),
        opt_text(p.health_url) == match config.health {
            Some(h) => Some(interpolated(h@, name@, *actual_ports, *proxy_ports)),
            None => None,
        },
{
    let cmd = interpolate(config.cmd.as_str(), name, actual_ports, proxy_ports);
    let port: u16 = match actual_ports.get(name) {
        Some(p) => *p,
        None => 0,
    };
    let framework = Framework::detect(cmd.as_str(), package_json);
    let final_cmd = if !config.managed {
        cmd
    } else {
        match framework.inject_port_flag(cmd.as_str(), port) {
            Some(c) => c,
            None => cmd,
        }
    };
    let mut env: Vec<(String, String)> = Vec::new();
    let ghost dv = pairs_view(dotenv@);
    let ghost keep = |e: (Seq<char>, Seq<char>)| !config.env.keys().contains(e.0);
    let ghost conv = |e: (Seq<char>, Seq<char>)|
        (e.0, interpolated(e.1, name@, *actual_ports, *proxy_ports));
    let mut i: usize = 0;
    while i < dotenv.len()
        invariant
            i <= dotenv.len(),
            dv == pairs_view(dotenv@),
            keep == (|e: (Seq<char>, Seq<char>)| !config.env.keys().contains(e.0)),
            conv == (|e: (Seq<char>, Seq<char>)|
                (e.0, interpolated(e.1, name@, *actual_ports, *proxy_ports))),
            pairs_view(env@) == dv.take(i as int).filter(keep).map_values(conv),
        decreases dotenv.len() - i,
    {
        let ghost before = env@;
        proof {
            assert(dv.take(i + 1) =~= dv.take(i as int).push(dv[i as int]));
            dv.take(i as int).lemma_filter_push(dv[i as int], keep);
        }
        if !config.env.contains_key(dotenv[i].0.as_str()) {
            let v = interpolate(dotenv[i].1.as_str(), name, actual_ports, proxy_ports);
            env.push((dotenv[i].0.clone(), v));
            proof {
                assert(pairs_view(env@) =~= pairs_view(before).push(conv(dv[i as int])));
                assert(dv.take(i + 1).filter(keep).map_values(conv) =~= dv.take(i as int).filter(
                    keep,
                ).map_values(conv).push(conv(dv[i as int])));
            }
        }
        i = i + 1;
    }
    proof {
        assert(dv.take(dotenv.len() as int) =~= dv);
        assert(pairs_view(env@) =~= dotenv_part(
            name@,
            *config,
            *actual_ports,
            *proxy_ports,
            dv,
        ));
    }
    let ghost first = pairs_view(env@);
    let n = config.env.len();
    let mut j: usize = 0;
    while j < n
        invariant
            j <= n,
            n == config.env.keys().len(),
            n == config.env.vals().len(),
            pairs_view(env@) == first + config_part(
                name@,
                *config,
                *actual_ports,
                *proxy_ports,
            ).take(j as int),
        decreases n - j,
    {
        let k = config.env.key_at(j);
        let v = config.env.value_at(j);
        let iv = interpolate(v.as_str(), name, actual_ports, proxy_ports);
        let ghost before = env@;
        env.push((k.clone(), iv));
        proof {
            assert(pairs_view(env@) =~= pairs_view(before).push(
                config_part(name@, *config, *actual_ports, *proxy_ports)[j as int],
            ));
            assert(config_part(name@, *config, *actual_ports, *proxy_ports).take(j + 1)
                =~= config_part(name@, *config, *actual_ports, *proxy_ports).take(j as int).push(
                config_part(name@, *config, *actual_ports, *proxy_ports)[j as int],
            ));
        }
        j = j + 1;
    }
    proof {
        assert(config_part(name@, *config, *actual_ports, *proxy_ports).take(n as int)
            =~= config_part(name@, *config, *actual_ports, *proxy_ports));
    }
    if framework.injects_port_env() && config.managed && !config.env.contains_key("PORT") {
        let ghost before = env@;
        env.push(("PORT".to_owned(), dec_string(port as u64)));
        proof {
            assert(pairs_view(env@) =~= pairs_view(before).push(("PORT"@, dec(port as nat))));
        }
    }
    proof {
        assert(pairs_view(env@) =~= launch_env(
            name@,
            *config,
            *actual_ports,
            *proxy_ports,
            opt_view(package_json),
            pairs_view(dotenv@),
        ));
    }
    let health_url = match &config.health {
        Some(h) => Some(interpolate(h.as_str(), name, actual_ports, proxy_ports)),
        None => None,
    };
    LaunchPlan { framework, cmd: final_cmd, env, health_url }
}

/// The view of an optional string slice.
pub open spec fn opt_view(o: Option<&str>) -> Option<Seq<char>> {
    match o {
        Some(s) => Some(s@),
        None => None,
    }
}

// ---------------------------------------------------------------------------
// Health checks
// ---------------------------------------------------------------------------

/// Seconds between two probes of a health URL.
pub const HEALTH_POLL_SECS: u64 = 2;

/// Probes made before a service is declared unhealthy.
pub const HEALTH_MAX_RETRIES: u32 = 30;

/// Seconds after which a service without a health URL counts as healthy.
pub const NO_HEALTH_DELAY_SECS: u64 = 3;

/// What one probe found: the process had exited, or the URL answered with
/// a 2xx status, or it did not (no answer, or another status).
#[derive(Debug)]
pub enum Probe {
    ProcessExited,
    Success,
    Failure,
}

/// What the health check does after a probe.
#[derive(Debug)]
pub enum HealthVerdict {
    /// Wait and probe again.
    Retry,
    /// The service is up.
    Healthy,
    /// Every probe failed.
    Unhealthy,
    /// The process died first.
    Failed,
}

/// The verdict after a probe by a check that has seen `failures` failed
/// probes, with the number of failed probes afterwards.
pub open spec fn probe_step(failures: nat, p: Probe) -> (HealthVerdict, nat) {
    match p {
        Probe::ProcessExited => (HealthVerdict::Failed, failures),
        Probe::Success => (HealthVerdict::Healthy, failures),
        Probe::Failure => if failures + 1 >= HEALTH_MAX_RETRIES {
            (HealthVerdict::Unhealthy, failures + 1)
        } else {
            (HealthVerdict::Retry, failures + 1)
        },
    }
}

/// The verdict a check reaches on the probe results `probes`, having seen
/// `failures` failed probes: the first verdict that is not a retry, or a
/// retry when the results run out first.
pub open spec fn check_outcome(failures: nat, probes: Seq<Probe>) -> HealthVerdict
    decreases probes.len(),
{
    if probes.len() == 0 {
        HealthVerdict::Retry
    } else {
        let (v, f) = probe_step(failures, probes[0]);
        if v is Retry {
            check_outcome(f, probes.skip(1))
        } else {
            v
        }
    }
}

/// A health check always decides within its probe budget: given as many
/// results as probes remain, it ends healthy, unhealthy or failed.
pub proof fn lemma_check_decides(failures: nat, probes: Seq<Probe>)
    requires
        failures < HEALTH_MAX_RETRIES,
        probes.len() >= HEALTH_MAX_RETRIES - failures,
    ensures
        !(check_outcome(failures, probes) is Retry),
    decreases probes.len(),
{
    let (v, f) = probe_step(failures, probes[0]);
    if v is Retry {
        lemma_check_decides(f, probes.skip(1));
    }
}

/// A check whose every probe fails ends unhealthy after exactly the
/// budget of probes, and not before.
pub proof fn lemma_all_failures_unhealthy(failures: nat, probes: Seq<Probe>)
    requires
        failures < HEALTH_MAX_RETRIES,
        probes.len() == HEALTH_MAX_RETRIES - failures,
        forall|i: int| 0 <= i < probes.len() ==> #[trigger] probes[i] is Failure,
    ensures
        check_outcome(failures, probes) is Unhealthy,
        probes.len() > 0 ==> check_outcome(failures, probes.drop_last()) is Retry,
    decreases probes.len(),
{
    if failures + 1 < HEALTH_MAX_RETRIES {
        assert forall|i: int| 0 <= i < probes.skip(1).len() implies #[trigger] probes.skip(1)[i] is Failure by {
            assert(probes.skip(1)[i] == probes[i + 1]);
        }
        lemma_all_failures_unhealthy(failures + 1, probes.skip(1));
        assert(probes.drop_last().skip(1) =~= probes.skip(1).drop_last());
    }
}

/// A running health check: how many probes have failed so far.
#[derive(Debug)]
pub struct HealthCheck {
    failures: u32,
}

impl HealthCheck {
    /// The number of failed probes so far.
    pub closed spec fn failures(&self) -> nat {
        self.failures as nat
    }

    /// The check keeps probing only while fewer than the maximum have failed.
    #[verifier::type_invariant]
    closed spec fn inv(&self) -> bool {
        self.failures < HEALTH_MAX_RETRIES
    }

    /// A check that has probed nothing yet.
    pub fn new() -> (h: Self)
        ensures
            h.failures() == 0,
    {
        HealthCheck { failures: 0 }
    }

    /// The number of failed probes so far (always below the maximum: a
    /// finished check is dropped).
    pub fn failures_so_far(&self) -> (n: u32)
        ensures
            n == self.failures(),
            n < HEALTH_MAX_RETRIES,
    {
        proof {
            use_type_invariant(self);
        }
        self.failures
    }

    /// Takes the result of the next probe. A dead process fails the check
    /// and a 2xx answer passes it; a failed probe is retried, except the
    /// last allowed one, which makes the service unhealthy.
    pub fn observe(self, probe: Probe) -> (r: (HealthVerdict, Option<HealthCheck>))
        ensures
            r.0 == probe_step(self.failures(), probe).0,
            r.0 is Retry ==> r.1 is Some && r.1->0.failures() == probe_step(self.failures(), probe).1,
            !(r.0 is Retry) ==> r.1 is None,
            match probe {
                Probe::ProcessExited => r.0 is Failed && r.1 is None,
                Probe::Success => r.0 is Healthy && r.1 is None,
                Probe::Failure => if self.failures() + 1 >= HEALTH_MAX_RETRIES {
                    r.0 is Unhealthy && r.1 is None
                } else {
                    r.0 is Retry && r.1 is Some && r.1->0.failures() == self.failures() + 1
                },
            },
    {
        proof {
            use_type_invariant(&self);
        }
        match probe {
            Probe::ProcessExited => (HealthVerdict::Failed, None),
            Probe::Success => (HealthVerdict::Healthy, None),
            Probe::Failure => {
                let n = self.failures + 1;
                if n >= HEALTH_MAX_RETRIES {
                    (HealthVerdict::Unhealthy, None)
                } else {
                    (HealthVerdict::Retry, Some(HealthCheck { failures: n }))
                }
            },
        }
    }
}

/// The state a verdict puts the service in; a retry changes nothing, and a
/// dead process is `Failed("process exited")`.
pub fn verdict_state(v: &HealthVerdict) -> (r: Option<ServiceState>)
    ensures
        match *v {
            HealthVerdict::Retry => r is None,
            HealthVerdict::Healthy => r == Some(ServiceState::Healthy),
            HealthVerdict::Unhealthy => r == Some(ServiceState::Unhealthy),
            HealthVerdict::Failed => r matches Some(ServiceState::Failed(m)) && m@
                == "process exited"@,
        },
{
    match v {
        HealthVerdict::Retry => None,
        HealthVerdict::Healthy => Some(ServiceState::Healthy),
        HealthVerdict::Unhealthy => Some(ServiceState::Unhealthy),
        HealthVerdict::Failed => Some(ServiceState::Failed("process exited".to_owned())),
    }
}

} // verus!
