use devx::control::{
    decide, event_for, invalid_json_reply, no_instance_message, reply_for, reply_ok, socket_path,
    status_json, ControlAction, ControlCommand, ServiceStatus,
};
use devx::events::DevxEvent;
use std::path::PathBuf;

fn cmd(c: &str, s: Option<&str>) -> ControlCommand {
    ControlCommand { cmd: c.to_string(), service: s.map(|x| x.to_string()) }
}

#[test]
fn socket_path_is_keyed_by_instance() {
    assert_eq!(PathBuf::from(socket_path("myapp")), PathBuf::from("/tmp/devx-myapp.sock"));
}

#[test]
fn requests_and_replies() {
    let a = decide(&cmd("shutdown", None));
    assert!(matches!(a, ControlAction::Shutdown));
    assert_eq!(reply_for(&a), Some("{\"ok\":true}".to_string()));
    assert!(matches!(event_for(&a), Some(DevxEvent::ControlShutdown)));

    let a = decide(&cmd("restart", Some("api")));
    assert!(matches!(&a, ControlAction::Restart(s) if s == "api"));
    assert_eq!(reply_for(&a), Some("{\"ok\":true}".to_string()));
    assert!(matches!(event_for(&a), Some(DevxEvent::ControlRestart { service }) if service == "api"));

    let a = decide(&cmd("restart", None));
    assert!(matches!(a, ControlAction::MissingService));
    assert_eq!(
        reply_for(&a),
        Some("{\"error\":\"restart requires a 'service' field\"}".to_string())
    );
    assert!(event_for(&a).is_none());

    let a = decide(&cmd("status", None));
    assert!(matches!(a, ControlAction::Status));
    assert_eq!(reply_for(&a), None);

    let a = decide(&cmd("bogus", Some("api")));
    assert!(matches!(a, ControlAction::Unknown));
    assert_eq!(reply_for(&a), Some("{\"error\":\"unknown command\"}".to_string()));
    assert!(reply_for(&a).unwrap().contains("unknown command"));
}

#[test]
fn invalid_json_and_client_messages() {
    let r = invalid_json_reply("expected value at line 1 column 1");
    assert_eq!(r, "{\"error\":\"invalid json: expected value at line 1 column 1\"}");
    assert!(r.contains("invalid json"));
    assert!(reply_ok("{\"ok\":true}\n"));
    assert!(!reply_ok("{\"error\":\"unknown command\"}"));
    assert_eq!(
        no_instance_message("app", "/tmp/devx-app.sock"),
        "no running devx instance found for project 'app' (socket /tmp/devx-app.sock not found)"
    );
}

#[test]
fn status_report_json() {
    let services = vec![
        ServiceStatus {
            name: "api".to_string(),
            state: "healthy".to_string(),
            port: Some(34521),
            proxy_port: Some(8000),
            uptime_secs: Some(323),
        },
        ServiceStatus {
            name: "we\"b".to_string(),
            state: "starting".to_string(),
            port: None,
            proxy_port: None,
            uptime_secs: None,
        },
    ];
    let json = status_json("myapp", &services);
    assert_eq!(
        json,
        "{\"project\":\"myapp\",\"services\":[{\"name\":\"api\",\"port\":34521,\"proxy_port\":8000,\"state\":\"healthy\",\"uptime_secs\":323},{\"name\":\"we\\\"b\",\"port\":null,\"proxy_port\":null,\"state\":\"starting\",\"uptime_secs\":null}]}"
    );
    let v: serde_json::Value = serde_json::from_str(&json).unwrap();
    assert_eq!(v["project"], "myapp");
    assert_eq!(v["services"][1]["name"], "we\"b");
    assert_eq!(status_json("p", &vec![]), "{\"project\":\"p\",\"services\":[]}");
}

#[test]
fn status_json_escapes_like_serde_json() {
    let json = status_json("a\\b\n\t\r\u{8}\u{c}\u{1}\u{1f}é\"", &vec![]);
    assert_eq!(
        json,
        "{\"project\":\"a\\\\b\\n\\t\\r\\b\\f\\u0001\\u001fé\\\"\",\"services\":[]}"
    );
}
