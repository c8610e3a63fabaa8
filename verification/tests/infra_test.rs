use devx::infra::{compose_problems, compose_ps_failed, compose_up_failed, output_lines, ComposeEntry};

#[test]
fn output_lines_are_trimmed_and_non_blank() {
    assert_eq!(
        output_lines("  {\"Name\":\"db\"}  \n\n\r\n{\"Name\":\"cache\"}\r\n"),
        vec!["{\"Name\":\"db\"}", "{\"Name\":\"cache\"}"]
    );
    assert_eq!(output_lines(""), Vec::<String>::new());
    assert_eq!(output_lines("one"), vec!["one"]);
}

#[test]
fn stopped_containers_are_reported() {
    let all_up = vec![ComposeEntry { name: "db".into(), state: "running".into() }];
    assert_eq!(compose_problems(&all_up), None);
    assert_eq!(compose_problems(&vec![]), None);
    let some_down = vec![
        ComposeEntry { name: "db".into(), state: "exited".into() },
        ComposeEntry { name: "cache".into(), state: "running".into() },
        ComposeEntry { name: "queue".into(), state: "restarting".into() },
    ];
    assert_eq!(
        compose_problems(&some_down),
        Some("The following infra services are not running:\n  - db (exited)\n  - queue (restarting)\n\nRun `docker compose up -d` to start them.".to_string())
    );
}

#[test]
fn command_failures() {
    assert_eq!(compose_up_failed("  no such file \n"), "`docker compose up -d` failed:\nno such file");
    assert_eq!(
        compose_ps_failed("boom\n"),
        "`docker compose ps` failed.\nboom\n\nIs Docker running and is the compose file valid?"
    );
}
