use devx::config::{
    default_true, interpolate, ConfigError, DevxConfig, InfraConfig, PortMap, ProjectConfig,
    ProxyConfig, ServiceConfig,
};
use devx::strmap::StrMap;

fn service(cmd: &str) -> ServiceConfig {
    ServiceConfig {
        cmd: cmd.to_string(),
        dir: None,
        port: None,
        health: None,
        domain: None,
        env: StrMap::new(),
        depends_on: Vec::new(),
        watch: default_true(),
        env_file: None,
        managed: default_true(),
    }
}

fn config(name: &str, services: Vec<(&str, ServiceConfig)>) -> DevxConfig {
    let mut map = StrMap::new();
    for (k, v) in services {
        map.insert(k.to_string(), v);
    }
    DevxConfig {
        project: ProjectConfig { name: name.to_string() },
        infra: None,
        proxy: None,
        services: map,
    }
}

fn ports(pairs: &[(&str, u16)]) -> PortMap {
    let mut m = StrMap::new();
    for (k, v) in pairs {
        m.insert(k.to_string(), *v);
    }
    m
}

#[test]
fn test_interpolate_port() {
    let actual = ports(&[("api", 8080)]);
    let proxy = ports(&[]);
    let result = interpolate("http://localhost:${port}/health", "api", &actual, &proxy);
    assert_eq!(result, "http://localhost:8080/health");
}

#[test]
fn test_interpolate_proxy_ref() {
    let actual = ports(&[]);
    let proxy = ports(&[("api", 9080)]);
    let result = interpolate("PROXY=${proxy:api}", "web", &actual, &proxy);
    assert_eq!(result, "PROXY=9080");
}

#[test]
fn test_diff_unchanged() {
    let mut api = service("go run .");
    api.port = Some(8080);
    let a = config("app", vec![("api", api)]);
    let mut api2 = service("go run .");
    api2.port = Some(8080);
    let b = config("app", vec![("api", api2)]);
    let diff = a.diff(&b);
    assert!(diff.added.is_empty());
    assert!(diff.removed.is_empty());
    assert!(diff.changed.is_empty());
    assert_eq!(diff.unchanged, vec!["api"]);
}

#[test]
fn test_diff_added_removed_changed() {
    let mut api = service("go run .");
    api.port = Some(8080);
    let old = config("app", vec![("api", api), ("db", service("postgres"))]);
    let mut api2 = service("go run ./cmd/api");
    api2.port = Some(8080);
    let new = config("app", vec![("api", api2), ("worker", service("python worker.py"))]);
    let mut diff = old.diff(&new);

    diff.added.sort();
    diff.removed.sort();
    diff.changed.sort();
    diff.unchanged.sort();

    assert_eq!(diff.added, vec!["worker"]);
    assert_eq!(diff.removed, vec!["db"]);
    assert_eq!(diff.changed, vec!["api"]);
    assert!(diff.unchanged.is_empty());
}

#[test]
fn test_missing_cmd_is_error() {
    let cfg = config("broken", vec![("bad", service(""))]);
    let err = cfg.validate();
    assert!(err.is_err(), "expected error for empty cmd");
}

#[test]
fn validate_reports_each_fault() {
    let empty = config("none", vec![]);
    assert!(matches!(empty.validate(), Err(ConfigError::NoServices)));
    assert_eq!(
        empty.validate().unwrap_err().message(),
        "config must define at least one service"
    );

    let blank = config("blank", vec![("bad", service("   "))]);
    let e = blank.validate().unwrap_err();
    assert_eq!(e.message(), "service 'bad' has an empty cmd");

    let mut web = service("npm start");
    web.depends_on = vec!["nonexistent".to_string()];
    let dangling = config("dangling", vec![("web", web)]);
    let e = dangling.validate().unwrap_err();
    assert_eq!(
        e.message(),
        "service 'web' depends_on 'nonexistent' which does not exist"
    );

    let mut api = service("go run .");
    api.depends_on = vec!["db".to_string()];
    let ok = config("ok", vec![("db", service("postgres")), ("api", api)]);
    assert!(ok.validate().is_ok());
}

#[test]
fn tls_is_on_unless_disabled() {
    let mut c = config("app", vec![("a", service("x"))]);
    assert!(c.tls_enabled());
    c.proxy = Some(ProxyConfig { tls: false });
    assert!(!c.tls_enabled());
    c.proxy = Some(ProxyConfig { tls: true });
    assert!(c.tls_enabled());
    c.infra = Some(InfraConfig { compose: "docker-compose.yml".to_string() });
    assert_eq!(c.infra.as_ref().unwrap().compose, "docker-compose.yml");
}

#[test]
fn interpolation_edge_cases() {
    let actual = ports(&[("web", 41000)]);
    let proxy = ports(&[("api", 8000)]);
    assert_eq!(
        interpolate("${port} ${port} ${proxy:api} ${proxy:db}", "web", &actual, &proxy),
        "41000 41000 8000 ${proxy:db}"
    );
    assert_eq!(interpolate("x ${proxy:api", "web", &actual, &proxy), "x ${proxy:api");
    assert_eq!(interpolate("${port}", "other", &actual, &proxy), "${port}");
    assert_eq!(interpolate("plain", "web", &actual, &proxy), "plain");
}

#[test]
fn diff_against_itself_changes_nothing() {
    let mut api = service("go run .");
    api.env.insert("DEBUG".to_string(), "true".to_string());
    let a = config("app", vec![("api", api), ("db", service("postgres"))]);
    let mut api2 = service("go run .");
    api2.env.insert("DEBUG".to_string(), "true".to_string());
    let b = config("app", vec![("db", service("postgres")), ("api", api2)]);
    let diff = a.diff(&b);
    assert!(diff.added.is_empty() && diff.removed.is_empty() && diff.changed.is_empty());
    assert_eq!(diff.unchanged, vec!["api", "db"]);
}

#[test]
fn diff_lists_each_service_once() {
    let old = config(
        "app",
        vec![("api", service("a")), ("db", service("postgres")), ("web", service("w")), ("x", service("x"))],
    );
    let new = config(
        "app",
        vec![("web", service("w2")), ("api", service("a")), ("y", service("y")), ("z", service("z"))],
    );
    let diff = old.diff(&new);
    assert_eq!(diff.removed, vec!["db", "x"]);
    assert_eq!(diff.changed, vec!["web"]);
    assert_eq!(diff.unchanged, vec!["api"]);
    assert_eq!(diff.added, vec!["y", "z"]);
}
