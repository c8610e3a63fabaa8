use devx::config::{default_true, PortMap, ServiceConfig};
use devx::detect::Framework;
use devx::events::ServiceState;
use devx::process::{
    launch_plan, verdict_state, HealthCheck, HealthVerdict, Probe, HEALTH_MAX_RETRIES,
    HEALTH_POLL_SECS, NO_HEALTH_DELAY_SECS,
};
use devx::strmap::StrMap;

fn service(cmd: &str) -> ServiceConfig {
    ServiceConfig {
        cmd: cmd.to_string(),
        dir: None,
        port: None,
        health: None,
        domain: None,
        env: StrMap::new(),
        depends_on: Vec::new(),
        watch: default_true(),
        env_file: None,
        managed: default_true(),
    }
}

fn ports(pairs: &[(&str, u16)]) -> PortMap {
    let mut m = StrMap::new();
    for (k, v) in pairs {
        m.insert(k.to_string(), *v);
    }
    m
}

#[test]
fn vite_gets_port_flag_and_no_port_env() {
    let svc = service("vite dev");
    let plan = launch_plan("web", &svc, &ports(&[("web", 41000)]), &ports(&[]), None, &vec![]);
    assert_eq!(plan.framework, Framework::Vite);
    assert_eq!(plan.cmd, "vite dev --port 41000 --host");
    assert!(plan.env.is_empty());
    assert_eq!(plan.health_url, None);
}

#[test]
fn node_gets_port_env_unless_configured() {
    let mut svc = service("npm start");
    svc.env.insert("API".to_string(), "http://localhost:${proxy:api}".to_string());
    svc.health = Some("http://localhost:${port}/health".to_string());
    let dotenv = vec![
        ("API".to_string(), "ignored".to_string()),
        ("SECRET".to_string(), "p${port}".to_string()),
    ];
    let plan = launch_plan(
        "web",
        &svc,
        &ports(&[("web", 41000)]),
        &ports(&[("api", 8000)]),
        Some("{\"dependencies\":{\"express\":\"4\"}}"),
        &dotenv,
    );
    assert_eq!(plan.framework, Framework::Node);
    assert_eq!(plan.cmd, "npm start");
    assert_eq!(
        plan.env,
        vec![
            ("SECRET".to_string(), "p41000".to_string()),
            ("API".to_string(), "http://localhost:8000".to_string()),
            ("PORT".to_string(), "41000".to_string()),
        ]
    );
    assert_eq!(plan.health_url, Some("http://localhost:41000/health".to_string()));

    svc.env.insert("PORT".to_string(), "3000".to_string());
    let plan = launch_plan("web", &svc, &ports(&[("web", 41000)]), &ports(&[]), Some("{}"), &vec![]);
    assert!(!plan.env.iter().any(|(k, v)| k == "PORT" && v == "41000"));
}

#[test]
fn unmanaged_service_is_left_alone() {
    let mut svc = service("encore run");
    svc.managed = false;
    let plan = launch_plan("api", &svc, &ports(&[("api", 41000)]), &ports(&[]), Some("{}"), &vec![]);
    assert_eq!(plan.cmd, "encore run");
    let mut node = service("npm start");
    node.managed = false;
    let plan = launch_plan("n", &node, &ports(&[("n", 5)]), &ports(&[]), Some("{}"), &vec![]);
    assert!(plan.env.is_empty());
}

#[test]
fn service_without_port_gets_zero() {
    let svc = service("uvicorn app:app");
    let plan = launch_plan("py", &svc, &ports(&[]), &ports(&[]), None, &vec![]);
    assert_eq!(plan.cmd, "uvicorn app:app --port 0");
}

#[test]
fn health_check_gives_up_after_max_retries() {
    assert_eq!(HEALTH_POLL_SECS, 2);
    assert_eq!(NO_HEALTH_DELAY_SECS, 3);
    let mut h = HealthCheck::new();
    for i in 1..HEALTH_MAX_RETRIES {
        let (v, next) = h.observe(Probe::Failure);
        assert!(matches!(v, HealthVerdict::Retry));
        h = next.unwrap();
        assert_eq!(h.failures_so_far(), i);
    }
    let (v, next) = h.observe(Probe::Failure);
    assert!(matches!(v, HealthVerdict::Unhealthy));
    assert!(next.is_none());
}

#[test]
fn health_check_verdicts() {
    let (v, n) = HealthCheck::new().observe(Probe::Success);
    assert!(matches!(v, HealthVerdict::Healthy) && n.is_none());
    assert!(matches!(verdict_state(&v), Some(ServiceState::Healthy)));
    let (v, n) = HealthCheck::new().observe(Probe::ProcessExited);
    assert!(matches!(v, HealthVerdict::Failed) && n.is_none());
    match verdict_state(&v) {
        Some(ServiceState::Failed(m)) => assert_eq!(m, "process exited"),
        other => panic!("unexpected {:?}", other),
    }
    assert!(verdict_state(&HealthVerdict::Retry).is_none());
    assert!(matches!(verdict_state(&HealthVerdict::Unhealthy), Some(ServiceState::Unhealthy)));
}
