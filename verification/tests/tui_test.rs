use devx::config::ConfigDiff;
use devx::events::{DevxEvent, ServiceState};
use devx::strmap::StrMap;
use devx::tui::app::{help_text, App, TuiCommand};
use devx::tui::keys::{handle_key, Action, Key, KeyInput};
use devx::tui::logs::{log_prefix, logs_title, service_color, visible_entries, LogColor, LogEntry};
use devx::tui::status::{header_cells, row_cells, state_color, ServiceInfo, StateColor};

fn press(key: Key) -> KeyInput {
    KeyInput { key, shift: false, control: false, press: true }
}

#[test]
fn key_bindings() {
    assert_eq!(handle_key(press(Key::Char('q'))), Action::Quit);
    assert_eq!(handle_key(KeyInput { control: true, ..press(Key::Char('c')) }), Action::Quit);
    assert_eq!(handle_key(press(Key::Char('c'))), Action::NoOp);
    assert_eq!(handle_key(press(Key::Char('r'))), Action::Restart);
    assert_eq!(handle_key(press(Key::Char('f'))), Action::ToggleFilter);
    assert_eq!(handle_key(press(Key::Enter)), Action::ToggleFilter);
    assert_eq!(handle_key(press(Key::Esc)), Action::ClearFilter);
    assert_eq!(handle_key(KeyInput { shift: true, ..press(Key::Up) }), Action::ScrollUp);
    assert_eq!(handle_key(KeyInput { shift: true, ..press(Key::Down) }), Action::ScrollDown);
    assert_eq!(handle_key(press(Key::PageUp)), Action::ScrollUp);
    assert_eq!(handle_key(press(Key::PageDown)), Action::ScrollDown);
    assert_eq!(handle_key(press(Key::Up)), Action::ScrollUp);
    assert_eq!(handle_key(press(Key::Down)), Action::ScrollDown);
    assert_eq!(handle_key(press(Key::Tab)), Action::NextService);
    assert_eq!(handle_key(press(Key::BackTab)), Action::PrevService);
    assert_eq!(handle_key(press(Key::Other)), Action::NoOp);
    assert_eq!(handle_key(KeyInput { press: false, ..press(Key::Char('q')) }), Action::NoOp);
}

#[test]
fn palette_repeats() {
    assert_eq!(service_color(0), LogColor::Cyan);
    assert_eq!(service_color(1), LogColor::Magenta);
    assert_eq!(service_color(5), LogColor::Red);
    assert_eq!(service_color(6), LogColor::Cyan);
}

#[test]
fn labels_are_fixed_width() {
    assert_eq!(log_prefix("api"), "[api         ]");
    assert_eq!(log_prefix("exactly12chr"), "[exactly12chr]");
    assert_eq!(log_prefix("a-very-long-service"), "[a-very-long\u{2026}]");
    assert_eq!(logs_title(Some("api")), " Logs [api] ");
    assert_eq!(logs_title(None), " Logs ");
}

fn entry(s: &str, l: &str) -> LogEntry {
    LogEntry { service: s.to_string(), line: l.to_string(), is_stderr: false, color: LogColor::White }
}

#[test]
fn visible_window_follows_tail_and_scroll() {
    let entries: Vec<LogEntry> = (0..10)
        .map(|i| entry(if i % 2 == 0 { "a" } else { "b" }, &i.to_string()))
        .collect();
    assert_eq!(visible_entries(&entries, None, 5, 0), vec![7, 8, 9]);
    assert_eq!(visible_entries(&entries, None, 5, 2), vec![5, 6, 7]);
    assert_eq!(visible_entries(&entries, None, 5, 100), vec![0, 1, 2]);
    assert_eq!(visible_entries(&entries, Some("a"), 4, 0), vec![6, 8]);
    assert_eq!(visible_entries(&entries, None, 2, 0), Vec::<usize>::new());
    assert_eq!(visible_entries(&entries, None, 50, 0).len(), 10);
}

#[test]
fn status_rows() {
    assert_eq!(header_cells(), vec!["SERVICE", "DOMAIN", "STATUS", "PORT", "PROXY", "TIME"]);
    let info = ServiceInfo {
        name: "api".to_string(),
        domain: Some("api.localhost".to_string()),
        state: ServiceState::Healthy,
        actual_port: Some(41000),
        proxy_port: None,
        uptime: Some("5s".to_string()),
    };
    assert_eq!(row_cells(&info), vec!["api", "api.localhost", "● healthy", "41000", "", "5s"]);
    assert_eq!(state_color(&ServiceState::Pending), StateColor::Yellow);
    assert_eq!(state_color(&ServiceState::Failed("x".into())), StateColor::Red);
    assert_eq!(state_color(&ServiceState::Stopped), StateColor::DarkGray);
    assert_eq!(state_color(&ServiceState::Healthy), StateColor::Green);
}

fn app() -> App {
    App::new(
        "shop".to_string(),
        vec!["db".to_string(), "api".to_string(), "web".to_string()],
        Some("main".to_string()),
    )
}

#[test]
fn selection_wraps_and_round_trips() {
    let mut a = app();
    assert_eq!(a.selected_index(), 0);
    a.apply_action(Action::PrevService);
    assert_eq!(a.selected_index(), 2);
    a.apply_action(Action::NextService);
    assert_eq!(a.selected_index(), 0);
    a.apply_action(Action::NextService);
    a.apply_action(Action::NextService);
    assert_eq!(a.selected_index(), 2);
    a.apply_action(Action::NextService);
    assert_eq!(a.selected_index(), 0);
}

#[test]
fn filter_toggles_and_scroll_saturates() {
    let mut a = app();
    a.apply_action(Action::NextService);
    a.apply_action(Action::ScrollUp);
    a.apply_action(Action::ScrollUp);
    assert_eq!(a.scroll_offset(), 2);
    a.apply_action(Action::ToggleFilter);
    assert_eq!(a.log_filter(), Some("api"));
    assert_eq!(a.scroll_offset(), 0);
    a.apply_action(Action::ToggleFilter);
    assert_eq!(a.log_filter(), None);
    a.apply_action(Action::ToggleFilter);
    a.apply_action(Action::ClearFilter);
    assert_eq!(a.log_filter(), None);
    a.apply_action(Action::ScrollDown);
    assert_eq!(a.scroll_offset(), 0);
    match a.apply_action(Action::Restart) {
        Some(TuiCommand::Restart(s)) => assert_eq!(s, "api"),
        other => panic!("unexpected {:?}", other),
    }
    assert!(matches!(a.apply_action(Action::Quit), Some(TuiCommand::Shutdown)));
    assert!(a.should_quit());
}

#[test]
fn events_update_the_dashboard() {
    let mut a = app();
    assert_eq!(a.title(), " devx · shop");
    assert!(a.handle_event(DevxEvent::LogLine {
        service: "api".into(),
        line: "listening".into(),
        is_stderr: false
    })
    .is_none());
    assert!(a.handle_event(DevxEvent::LogLine {
        service: "other".into(),
        line: "x".into(),
        is_stderr: true
    })
    .is_none());
    assert_eq!(a.log_entries()[0].color, LogColor::Magenta);
    assert_eq!(a.log_entries()[1].color, LogColor::White);
    a.handle_event(DevxEvent::StateChange {
        service: "api".into(),
        state: ServiceState::Healthy,
        started_at: Some(std::time::Instant::now()),
    });
    a.handle_event(DevxEvent::ProxyBound { service: "api".into(), proxy_port: 8000, target_port: 41000 });
    a.handle_event(DevxEvent::VhostBound {
        port: 8443,
        domains: vec![("api.localhost".into(), "api".into())],
        tls: true,
    });
    assert_eq!(a.title(), " devx · shop · https://*.localhost:8443");
    assert_eq!(a.started_at().len(), 1);
    let mut up = StrMap::new();
    up.insert("api".to_string(), 65u64);
    let rows = a.service_rows(&up);
    assert_eq!(rows.len(), 3);
    assert!(matches!(rows[0].state, ServiceState::Stopped));
    assert!(matches!(rows[1].state, ServiceState::Healthy));
    assert_eq!(rows[1].actual_port, Some(41000));
    assert_eq!(rows[1].proxy_port, Some(8000));
    assert_eq!(rows[1].domain.as_deref(), Some("api.localhost"));
    assert_eq!(rows[1].uptime.as_deref(), Some("1m5s"));
    match a.handle_event(DevxEvent::FileChanged { service: "web".into() }) {
        Some(TuiCommand::Restart(s)) => assert_eq!(s, "web"),
        other => panic!("unexpected {:?}", other),
    }
    assert_eq!(a.log_entries()[2].line, "file changed, restarting...");
    assert!(matches!(
        a.handle_event(DevxEvent::ControlRestart { service: "db".into() }),
        Some(TuiCommand::Restart(_))
    ));
    assert!(a.handle_event(DevxEvent::Tick).is_none());
    assert!(matches!(a.handle_event(DevxEvent::ControlShutdown), Some(TuiCommand::Shutdown)));
    assert!(a.should_quit());
}

#[test]
fn reload_updates_list_and_logs() {
    let mut a = App::new("shop".into(), vec!["db".into(), "api".into()], Some("feat/x".into()));
    assert_eq!(a.title(), " devx · shop [feat/x]");
    a.handle_event(DevxEvent::StateChange { service: "db".into(), state: ServiceState::Healthy, started_at: None });
    let diff = ConfigDiff {
        added: vec!["worker".into()],
        removed: vec!["db".into()],
        changed: vec!["api".into()],
        unchanged: vec![],
    };
    a.handle_event(DevxEvent::ConfigReloaded { diff });
    assert_eq!(a.service_count(), 2);
    let rows = a.service_rows(&StrMap::new());
    assert_eq!(rows[0].name, "api");
    assert_eq!(rows[1].name, "worker");
    let last = a.log_entries().last().unwrap();
    assert_eq!(last.line, "[devx] config reloaded: restarted api, added worker, removed db");
    assert_eq!(last.color, LogColor::Cyan);
    a.handle_event(DevxEvent::LogLine { service: "worker".into(), line: "w".into(), is_stderr: false });
    assert_eq!(a.log_entries().last().unwrap().color, LogColor::Yellow);
    assert_eq!(help_text(), " q quit  r restart  ↑↓ scroll  tab/shift+tab select  enter/f filter  esc all");
}

#[test]
fn log_trimming() {
    let mut a = app();
    for i in 0..6001 {
        a.handle_event(DevxEvent::LogLine { service: "api".into(), line: i.to_string(), is_stderr: false });
    }
    a.trim_logs();
    assert_eq!(a.log_entries().len(), 4001);
    assert_eq!(a.log_entries()[0].line, "2000");
}
