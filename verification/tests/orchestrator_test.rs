use devx::config::{default_true, DevxConfig, ProjectConfig, ServiceConfig};
use devx::events::ServiceState;
use devx::orchestrator::{flatten, reload_steps, Orchestrator, ReloadStep, StartError};
use devx::ports::BindOutcome;
use devx::strmap::StrMap;

fn service(cmd: &str) -> ServiceConfig {
    ServiceConfig {
        cmd: cmd.to_string(),
        dir: None,
        port: None,
        health: None,
        domain: None,
        env: StrMap::new(),
        depends_on: Vec::new(),
        watch: default_true(),
        env_file: None,
        managed: default_true(),
    }
}

fn config(services: Vec<(&str, ServiceConfig)>) -> DevxConfig {
    let mut map = StrMap::new();
    for (k, v) in services {
        map.insert(k.to_string(), v);
    }
    DevxConfig { project: ProjectConfig { name: "app".to_string() }, infra: None, proxy: None, services: map }
}

fn sample() -> DevxConfig {
    let mut db = service("postgres");
    db.port = Some(5432);
    db.watch = false;
    let mut api = service("go run .");
    api.port = Some(8000);
    api.domain = Some("api.localhost".to_string());
    api.depends_on = vec!["db".to_string()];
    api.dir = Some("api".to_string());
    let mut web = service("npm run dev");
    web.domain = Some("web.localhost".to_string());
    web.depends_on = vec!["api".to_string()];
    config(vec![("db", db), ("api", api), ("web", web)])
}

#[test]
fn start_order_and_names() {
    let o = Orchestrator::new(sample(), 0);
    let waves = o.start_order(None).unwrap();
    assert_eq!(waves, vec![vec!["db"], vec!["api"], vec!["web"]]);
    assert_eq!(o.service_names(), vec!["db", "api", "web"]);
    let only_api = o.start_order(Some(&vec!["api".to_string()])).unwrap();
    assert_eq!(flatten(&only_api), vec!["db", "api"]);
}

#[test]
fn cycle_falls_back_to_config_order() {
    let mut a = service("a");
    a.depends_on = vec!["b".to_string()];
    let mut b = service("b");
    b.depends_on = vec!["a".to_string()];
    let o = Orchestrator::new(config(vec![("b", b), ("a", a)]), 0);
    assert!(o.start_order(None).is_err());
    assert_eq!(o.service_names(), vec!["b", "a"]);
}

#[test]
fn port_requests_shift_by_offset() {
    let o = Orchestrator::new(sample(), 20);
    let order = vec!["db".to_string(), "api".to_string(), "web".to_string()];
    let reqs = o.port_requests(&order).unwrap();
    assert_eq!(reqs.len(), 3);
    assert_eq!(reqs[0].service, "db");
    assert_eq!(reqs[0].proxy_preferred, Some(5452));
    assert_eq!(reqs[1].proxy_preferred, Some(8020));
    assert_eq!(reqs[2].proxy_preferred, None);
    let bad = o.port_requests(&vec!["db".to_string(), "ghost".to_string()]);
    match bad {
        Err(e @ StartError::UnknownService(_)) => {
            assert_eq!(e.message(), "service 'ghost' not found in config")
        }
        other => panic!("unexpected {:?}", other),
    }
}

#[test]
fn session_plan_after_allocation() {
    let mut o = Orchestrator::new(sample(), 0);
    assert!(o.take_service_port("db", 41001, 0));
    assert!(!o.take_service_port("api", 41001, 0));
    assert!(o.take_service_port("api", 41002, 1));
    assert!(o.take_service_port("web", 41003, 0));
    let p = o.take_proxy_port("db", 5432, BindOutcome::Preferred(5432)).unwrap();
    assert!(!p.remapped);
    // The OS handing back a port already given to `web` is refused.
    assert!(o.take_proxy_port("api", 8000, BindOutcome::Fallback(41003)).is_none());
    let p = o.take_proxy_port("api", 8000, BindOutcome::Fallback(42000)).unwrap();
    assert!(p.remapped && p.actual == 42000);

    let targets = o.proxy_targets();
    let t: Vec<(String, u16, u16)> =
        targets.iter().map(|t| (t.service.clone(), t.listen_port, t.target_port)).collect();
    assert_eq!(
        t,
        vec![("db".to_string(), 5432, 41001), ("api".to_string(), 42000, 41002)]
    );

    let routes = o.vhost_routes(Some("feat/login"));
    assert_eq!(routes.get("api.localhost").map(|s| s.as_str()), Some("api"));
    assert_eq!(routes.get("web.localhost").map(|s| s.as_str()), Some("web"));
    assert_eq!(routes.get("feat-login.api.localhost").map(|s| s.as_str()), Some("api"));
    assert_eq!(routes.get("feat-login.web.localhost").map(|s| s.as_str()), Some("web"));
    assert_eq!(routes.len(), 4);
    assert_eq!(o.vhost_routes(Some("main")).len(), 2);
    assert_eq!(o.vhost_routes(None).len(), 2);

    assert_eq!(
        o.domain_services(),
        vec![
            ("api.localhost".to_string(), "api".to_string()),
            ("web.localhost".to_string(), "web".to_string())
        ]
    );
    assert_eq!(o.tls_domains(), vec!["api.localhost", "web.localhost", "*.localhost"]);
    assert_eq!(
        o.watch_targets(),
        vec![("api".to_string(), Some("api".to_string())), ("web".to_string(), None)]
    );

    let plan = o.plan_launch("web", None, &vec![]).unwrap();
    assert_eq!(plan.cmd, "npm run dev");
    let plan = o.plan_launch("api", None, &vec![]).unwrap();
    assert_eq!(plan.cmd, "go run .");
    assert!(matches!(o.plan_launch("ghost", None, &vec![]), Err(StartError::UnknownService(_))));
}

#[test]
fn plan_requires_a_port() {
    let o = Orchestrator::new(sample(), 0);
    match o.plan_launch("db", None, &vec![]) {
        Err(e @ StartError::NoPort(_)) => assert_eq!(e.message(), "no port allocated for 'db'"),
        other => panic!("unexpected {:?}", other),
    }
}

#[test]
fn reload_and_status() {
    let mut o = Orchestrator::new(sample(), 0);
    assert!(o.take_service_port("api", 41002, 0));
    o.record_state("api", ServiceState::Starting);
    o.record_state("db", ServiceState::Healthy);
    o.record_state("api", ServiceState::Healthy);
    let mut uptimes = StrMap::new();
    uptimes.insert("api".to_string(), 5u64);
    let json = o.status_report("app-wt", &uptimes);
    assert_eq!(
        json,
        "{\"project\":\"app-wt\",\"services\":[{\"name\":\"api\",\"port\":41002,\"proxy_port\":null,\"state\":\"healthy\",\"uptime_secs\":5},{\"name\":\"db\",\"port\":null,\"proxy_port\":null,\"state\":\"healthy\",\"uptime_secs\":null}]}"
    );

    let mut new_cfg = sample();
    new_cfg.services.insert("worker".to_string(), service("python worker.py"));
    let mut web = service("npm start");
    web.domain = Some("web.localhost".to_string());
    new_cfg.services.insert("web".to_string(), web);
    let diff = o.reload(new_cfg);
    assert_eq!(diff.added, vec!["worker"]);
    assert_eq!(diff.changed, vec!["web"]);
    assert_eq!(diff.unchanged, vec!["db", "api"]);
    assert!(diff.removed.is_empty());
    assert!(o.service("worker").is_some());

    o.forget("db");
    let json = o.status_report("app", &StrMap::new());
    assert!(json.contains("\"name\":\"api\"") && !json.contains("\"name\":\"db\""));
}

#[test]
fn reload_steps_stop_restart_then_start() {
    let mut o = Orchestrator::new(sample(), 0);
    let mut next = sample();
    next.services.remove("web");
    let mut api = service("go run ./cmd");
    api.port = Some(8000);
    next.services.insert("api".to_string(), api);
    next.services.insert("worker".to_string(), service("python worker.py"));
    let diff = o.reload(next);
    let steps: Vec<String> = reload_steps(&diff)
        .iter()
        .map(|s| match s {
            ReloadStep::Stop(n) => format!("stop {}", n),
            ReloadStep::Restart(n) => format!("restart {}", n),
            ReloadStep::Start(n) => format!("start {}", n),
        })
        .collect();
    assert_eq!(steps, vec!["stop web", "restart api", "start worker"]);
}

#[test]
fn restart_needs_a_configured_service() {
    let o = Orchestrator::new(sample(), 0);
    assert!(o.restart_check("api").is_ok());
    assert_eq!(o.restart_check("ghost"), Err("service 'ghost' not found".to_string()));
}

#[test]
fn health_of_a_removed_process_is_ignored() {
    let mut o = Orchestrator::new(sample(), 0);
    o.apply_health("api", ServiceState::Healthy, true);
    o.apply_health("web", ServiceState::Healthy, false);
    let report = o.status_report("app", &StrMap::new());
    assert!(report.contains("\"api\""));
    assert!(!report.contains("\"web\""));
}
