use devx::config::ConfigDiff;
use devx::events::{
    devx_error, event_log_line, event_log_text, reload_summary_text, stamp, tagged_message,
    DevxEvent, ServiceState,
};

#[test]
fn state_labels_and_symbols() {
    assert_eq!(ServiceState::Pending.label(), "pending");
    assert_eq!(ServiceState::Starting.label(), "starting");
    assert_eq!(ServiceState::Healthy.label(), "healthy");
    assert_eq!(ServiceState::Unhealthy.label(), "unhealthy");
    assert_eq!(ServiceState::Failed("x".to_string()).label(), "failed");
    assert_eq!(ServiceState::Stopped.label(), "stopped");
    assert_eq!(ServiceState::Stopped.symbol(), "○");
    assert_eq!(ServiceState::Healthy.symbol(), "●");
    assert_eq!(ServiceState::Failed("x".to_string()).symbol(), "●");
}

#[test]
fn log_lines_of_each_event() {
    let t = |e: DevxEvent| event_log_text(&e);
    assert_eq!(
        t(DevxEvent::LogLine { service: "api".into(), line: "boom".into(), is_stderr: true }),
        Some("[api] [stderr] boom".to_string())
    );
    assert_eq!(
        t(DevxEvent::StateChange {
            service: "api".into(),
            state: ServiceState::Healthy,
            started_at: None
        }),
        Some("[api] state: healthy".to_string())
    );
    assert_eq!(
        t(DevxEvent::ProxyBound { service: "api".into(), proxy_port: 8000, target_port: 34521 }),
        Some("[api] proxy :8000 -> :34521".to_string())
    );
    assert_eq!(
        t(DevxEvent::VhostBound {
            port: 8443,
            domains: vec![
                ("api.localhost".into(), "api".into()),
                ("web.localhost".into(), "web".into())
            ],
            tls: true
        }),
        Some("[devx] vhost https :8443 domains: api.localhost, web.localhost".to_string())
    );
    assert_eq!(
        t(DevxEvent::VhostBound { port: 80, domains: vec![], tls: false }),
        Some("[devx] vhost http :80 domains: ".to_string())
    );
    assert_eq!(
        t(DevxEvent::FileChanged { service: "web".into() }),
        Some("[web] file changed, restarting".to_string())
    );
    assert_eq!(t(DevxEvent::AllStarted), Some("[devx] all services started".to_string()));
    assert_eq!(
        t(DevxEvent::ControlRestart { service: "api".into() }),
        Some("[devx] control: restart api".to_string())
    );
    assert_eq!(t(DevxEvent::Tick), None);
    assert_eq!(t(DevxEvent::ControlShutdown), None);
}

#[test]
fn reload_summaries() {
    let none = ConfigDiff { added: vec![], removed: vec![], changed: vec![], unchanged: vec!["a".into()] };
    assert_eq!(reload_summary_text(&none), "no changes");
    let all = ConfigDiff {
        added: vec!["n".into(), "m".into()],
        removed: vec!["o".into()],
        changed: vec!["c".into()],
        unchanged: vec![],
    };
    assert_eq!(reload_summary_text(&all), "added n, added m, removed o, changed c");
}

#[test]
fn stamped_lines() {
    assert_eq!(stamp("2024-01-15 10:30:45", "[devx] x"), "[2024-01-15 10:30:45] [devx] x");
    assert_eq!(
        event_log_line("T", &DevxEvent::LogLine { service: "api".into(), line: "up".into(), is_stderr: false }),
        Some("[T] [api] up".to_string())
    );
    assert_eq!(event_log_line("T", &DevxEvent::Tick), None);
    assert_eq!(tagged_message("proxy", "api error", "refused"), "[proxy] api error: refused");
    match devx_error("[tls] oops".to_string()) {
        DevxEvent::LogLine { service, line, is_stderr } => {
            assert_eq!(service, "devx");
            assert_eq!(line, "[tls] oops");
            assert!(is_stderr);
        }
        other => panic!("unexpected event {:?}", other),
    }
}
