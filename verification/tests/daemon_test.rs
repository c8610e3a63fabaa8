use devx::config::ConfigDiff;
use devx::daemon::{
    drain_step, stopped_text, follow_line, format_timestamp, format_uptime, log_path, parse_pid, pid_path,
    started_text, tail_lines, DrainInput,
};
use devx::events::DevxEvent;
use std::path::PathBuf;

#[test]
fn test_pid_path() {
    assert_eq!(PathBuf::from(pid_path("myapp")), PathBuf::from("/tmp/devx-myapp.pid"));
}

#[test]
fn test_log_path() {
    assert_eq!(PathBuf::from(log_path("myapp")), PathBuf::from("/tmp/devx-myapp.log"));
}

#[test]
fn pid_file_contents() {
    assert_eq!(parse_pid("1234\n"), Some(1234));
    assert_eq!(parse_pid("  +42 "), Some(42));
    assert_eq!(parse_pid("4294967295"), Some(u32::MAX));
    assert_eq!(parse_pid("4294967296"), None);
    assert_eq!(parse_pid("99999999999999999999"), None);
    assert_eq!(parse_pid("-1"), None);
    assert_eq!(parse_pid("12a"), None);
    assert_eq!(parse_pid("+"), None);
    assert_eq!(parse_pid(""), None);
    assert_eq!(parse_pid("1 2"), None);
}

#[test]
fn test_format_timestamp() {
    let ts = format_timestamp(2024, 1, 15, 10, 30, 5);
    assert_eq!(ts, "2024-01-15 10:30:05");
    assert_eq!(ts.len(), 19);
    assert_eq!(&ts[4..5], "-");
    assert_eq!(&ts[7..8], "-");
    assert_eq!(&ts[10..11], " ");
    assert_eq!(&ts[13..14], ":");
    assert_eq!(&ts[16..17], ":");
}

#[test]
fn uptime_formats() {
    assert_eq!(format_uptime(0), "0s");
    assert_eq!(format_uptime(59), "59s");
    assert_eq!(format_uptime(60), "1m0s");
    assert_eq!(format_uptime(323), "5m23s");
    assert_eq!(format_uptime(3599), "59m59s");
    assert_eq!(format_uptime(3600), "1h0m");
    assert_eq!(format_uptime(7384), "2h3m");
}

#[test]
fn tail_keeps_last_lines_of_the_service() {
    let lines: Vec<String> = [
        "[t] [devx] daemon started (pid 1)",
        "[t] [alpha] one",
        "[t] [beta] two",
        "[t] [alpha] three",
        "[t] [alpha] four",
    ]
    .iter()
    .map(|s| s.to_string())
    .collect();
    assert_eq!(tail_lines(&lines, None, 2), vec!["[t] [alpha] three", "[t] [alpha] four"]);
    assert_eq!(
        tail_lines(&lines, Some("alpha"), 2),
        vec!["[t] [alpha] three", "[t] [alpha] four"]
    );
    assert_eq!(tail_lines(&lines, Some("beta"), 50), vec!["[t] [beta] two"]);
    assert_eq!(tail_lines(&lines, Some("gamma"), 50), Vec::<String>::new());
    assert_eq!(tail_lines(&lines, None, 0), Vec::<String>::new());
    assert_eq!(tail_lines(&lines, None, 50).len(), 5);
}

#[test]
fn follow_mode_filters_and_trims() {
    assert_eq!(follow_line("[t] [alpha] hi  \n", Some("alpha")), Some("[t] [alpha] hi".to_string()));
    assert_eq!(follow_line("[t] [beta] hi\n", Some("alpha")), None);
    assert_eq!(follow_line("  x \r\n", None), Some("  x".to_string()));
}

#[test]
fn drain_loop_steps() {
    let s = drain_step(&DrainInput::Event(DevxEvent::LogLine {
        service: "api".to_string(),
        line: "listening".to_string(),
        is_stderr: false,
    }));
    assert_eq!(s.texts, vec!["[api] listening"]);
    assert!(!s.stop);

    let s = drain_step(&DrainInput::Event(DevxEvent::ControlShutdown));
    assert_eq!(s.texts, vec!["[devx] received shutdown command"]);
    assert!(s.stop);

    let s = drain_step(&DrainInput::Event(DevxEvent::Tick));
    assert!(s.texts.is_empty() && !s.stop);

    let s = drain_step(&DrainInput::Terminate);
    assert_eq!(s.texts, vec!["[devx] received SIGTERM, shutting down"]);
    assert!(s.stop);

    let s = drain_step(&DrainInput::ChannelClosed);
    assert!(s.texts.is_empty() && s.stop && s.restart.is_none());

    let s = drain_step(&DrainInput::Event(DevxEvent::ControlRestart { service: "api".to_string() }));
    assert_eq!(s.texts, vec!["[devx] control: restart api"]);
    assert_eq!(s.restart.as_deref(), Some("api"));
    assert!(!s.stop);
    assert_eq!(stopped_text(), "[devx] daemon stopped");

    let diff = ConfigDiff {
        added: vec!["w".to_string()],
        removed: vec![],
        changed: vec!["api".to_string()],
        unchanged: vec![],
    };
    let s = drain_step(&DrainInput::Event(DevxEvent::ConfigReloaded { diff }));
    assert_eq!(s.texts, vec!["[devx] config reloaded: added w, changed api"]);
    assert_eq!(started_text(77), "[devx] daemon started (pid 77)");
}

#[test]
fn timestamps_keep_their_shape() {
    for (y, mo, d, h, mi, s) in [(1, 1, 1, 0, 0, 0), (999, 12, 31, 23, 59, 59), (9999, 9, 9, 9, 9, 9)] {
        let ts = format_timestamp(y, mo, d, h, mi, s);
        assert_eq!(ts.len(), 19);
        for (i, c) in ts.chars().enumerate() {
            match i {
                4 | 7 => assert_eq!(c, '-'),
                10 => assert_eq!(c, ' '),
                13 | 16 => assert_eq!(c, ':'),
                _ => assert!(c.is_ascii_digit()),
            }
        }
    }
    assert_eq!(format_timestamp(7, 2, 3, 4, 5, 6), "0007-02-03 04:05:06");
}
