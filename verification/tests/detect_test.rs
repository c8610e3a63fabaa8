use devx::detect::Framework;

#[test]
fn test_detect_vite() {
    let f = Framework::detect("npm run dev", None);
    assert!(matches!(f, Framework::Unknown));
}

#[test]
fn test_detect_vite_from_cmd() {
    let f = Framework::detect("vite dev", None);
    assert!(matches!(f, Framework::Vite));
}

#[test]
fn test_detect_uvicorn() {
    let f = Framework::detect("uvicorn app:app", None);
    assert!(matches!(f, Framework::Python));
}

#[test]
fn test_detect_go() {
    let f = Framework::detect("go run ./cmd/api", None);
    assert!(matches!(f, Framework::Go));
}

#[test]
fn test_inject_vite_port() {
    let result = Framework::Vite.inject_port_flag("npm run dev", 3000);
    assert_eq!(result, Some("npm run dev --port 3000 --host".to_string()));
}

#[test]
fn test_no_inject_when_port_present() {
    let result = Framework::Vite.inject_port_flag("npm run dev --port ${port}", 3000);
    assert_eq!(result, None);
}

#[test]
fn test_inject_uvicorn_port() {
    let result = Framework::Python.inject_port_flag("uvicorn app:app --host 0.0.0.0", 8090);
    assert_eq!(
        result,
        Some("uvicorn app:app --host 0.0.0.0 --port 8090".to_string())
    );
}

#[test]
fn test_detect_encore() {
    let f = Framework::detect("encore run", None);
    assert!(matches!(f, Framework::Encore));
}

#[test]
fn test_encore_injects_port_flag() {
    let result = Framework::Encore.inject_port_flag("encore run", 5000);
    assert_eq!(result, Some("encore run --port=5000".to_string()));
}

#[test]
fn test_encore_no_inject_when_port_present() {
    let result = Framework::Encore.inject_port_flag("encore run --port=4000", 5000);
    assert_eq!(result, None);
}

#[test]
fn test_encore_no_port_env() {
    assert!(!Framework::Encore.injects_port_env());
}

#[test]
fn package_json_decides_when_command_does_not() {
    assert_eq!(
        Framework::detect("npm run dev", Some("{\"devDependencies\":{\"vite\":\"5\"}}")),
        Framework::Vite
    );
    assert_eq!(
        Framework::detect("npm run dev", Some("{\"dependencies\":{\"next\":\"14\"}}")),
        Framework::NextJs
    );
    assert_eq!(Framework::detect("npm start", Some("{}")), Framework::Node);
    assert_eq!(Framework::detect("next dev", Some("{\"vite\":1}")), Framework::NextJs);
}

#[test]
fn gunicorn_binds_loopback_and_env_frameworks_get_no_flag() {
    assert_eq!(
        Framework::Python.inject_port_flag("gunicorn app:app", 7000),
        Some("gunicorn app:app -b 127.0.0.1:7000".to_string())
    );
    assert_eq!(Framework::Python.inject_port_flag("python main.py", 7000), None);
    assert_eq!(Framework::NextJs.inject_port_flag("next dev", 7000), None);
    assert!(Framework::NextJs.injects_port_env());
    assert!(Framework::Node.injects_port_env());
    assert!(!Framework::Go.injects_port_env());
    assert!(!Framework::Vite.self_managed());
}
