use ddev_gui::ddev::{
    check, describe_project, extract_raw, list_projects, parse_project_list, restart_project,
    start_project, stop_project, CommandOutcome, DdevError, ProjectStatus,
};
use ddev_gui::json::Json;

/// A `ddev list -j` output in DDEV's line-delimited log format.
const LIST_OUTPUT: &str = "{\"level\":\"info\",\"msg\":\"starting\",\"time\":\"2025-01-01T00:00:00Z\"}\n{\"level\":\"info\",\"msg\":\"\",\"raw\":[{\"approot\":\"/home/u/agora\",\"httpsurl\":\"https://agora.community.ddev.site\",\"httpurl\":\"http://agora.community.ddev.site\",\"mailpit_url\":\"http://agora.community.ddev.site:8025\",\"name\":\"agora.community\",\"primary_url\":\"https://agora.community.ddev.site\",\"shortroot\":\"~/agora\",\"status\":\"running\",\"status_desc\":\"running\",\"type\":\"laravel\"},{\"name\":\"Zeta\",\"status\":\"stopped\",\"type\":\"php\"},{\"name\":\"beta\",\"status\":\"paused\",\"type\":\"drupal\"},{\"name\":\"Alpha\",\"status\":\"running\",\"type\":\"wordpress\"}],\"time\":\"2025-01-01T00:00:01Z\"}\n";

/// A `ddev describe <name> -j` output as one pretty document.
const DESCRIBE_OUTPUT: &str = r#"{
  "level": "info",
  "msg": "",
  "raw": {
    "name": "agora.community",
    "status": "running",
    "services": { "web": { "status": "running" }, "db": { "status": "running" } },
    "mailpit_url": "http://agora.community.ddev.site:8025"
  }
}"#;

fn ok_run(stdout: &str) -> CommandOutcome {
    CommandOutcome::Exited {
        success: true,
        status: "exit status: 0".to_string(),
        stdout: stdout.as_bytes().to_vec(),
        stderr: Vec::new(),
    }
}

fn failed_run(stderr: &str) -> CommandOutcome {
    CommandOutcome::Exited {
        success: false,
        status: "exit status: 1".to_string(),
        stdout: Vec::new(),
        stderr: stderr.as_bytes().to_vec(),
    }
}

fn str_member(name: &str, value: &str) -> (String, Json) {
    (name.to_string(), Json::Str(value.to_string()))
}

#[test]
fn parses_real_list_fixture() {
    let raw = extract_raw(LIST_OUTPUT).expect("raw payload present");
    let projects = parse_project_list(&raw).expect("parses");
    assert!(!projects.is_empty(), "fixture has projects");

    let agora = projects
        .iter()
        .find(|p| p.name == "agora.community")
        .expect("agora.community present");
    assert_eq!(agora.status, ProjectStatus::Running);
    assert_eq!(agora.primary_url, "https://agora.community.ddev.site");
    assert_eq!(agora.kind, "laravel");
    assert!(agora.mailpit_url.starts_with("http"));
}

#[test]
fn list_is_sorted_case_insensitively() {
    let raw = extract_raw(LIST_OUTPUT).unwrap();
    let projects = parse_project_list(&raw).unwrap();
    let names: Vec<String> = projects.iter().map(|p| p.name.to_ascii_lowercase()).collect();
    let mut sorted = names.clone();
    sorted.sort();
    assert_eq!(names, sorted);
}

#[test]
fn parses_describe_fixture() {
    let raw = extract_raw(DESCRIBE_OUTPUT).expect("raw payload present");
    assert_eq!(raw.get("name").and_then(|v| v.as_str()), Some("agora.community"));
    assert!(raw.get("services").is_some());
}

#[test]
fn empty_project_list_is_ok() {
    assert!(parse_project_list(&Json::Null).unwrap().is_empty());
    assert!(parse_project_list(&Json::Array(vec![])).unwrap().is_empty());
}

#[test]
fn status_normalization() {
    assert_eq!(ProjectStatus::from_ddev("running"), ProjectStatus::Running);
    assert_eq!(ProjectStatus::from_ddev("OK"), ProjectStatus::Unknown);
    assert_eq!(ProjectStatus::from_ddev("Paused"), ProjectStatus::Paused);
    assert_eq!(ProjectStatus::from_ddev(""), ProjectStatus::Unknown);
}

#[test]
fn tolerates_missing_fields() {
    let raw = Json::Array(vec![Json::Object(vec![str_member("name", "minimal")])]);
    let projects = parse_project_list(&raw).unwrap();
    assert_eq!(projects.len(), 1);
    assert_eq!(projects[0].name, "minimal");
    assert_eq!(projects[0].status, ProjectStatus::Unknown);
    assert_eq!(projects[0].primary_url, "");
}

#[test]
fn unparseable_output_errors_cleanly() {
    let err = extract_raw("not json at all\n###\n").unwrap_err();
    assert!(matches!(err, DdevError::Parse(_)));
}

#[test]
fn status_ignores_case_and_whitespace() {
    assert_eq!(ProjectStatus::from_ddev("  RUNNING\n"), ProjectStatus::Running);
    assert_eq!(ProjectStatus::from_ddev("\tStopped "), ProjectStatus::Stopped);
    assert_eq!(ProjectStatus::from_ddev("STARTING"), ProjectStatus::Starting);
    assert_eq!(ProjectStatus::from_ddev("run ning"), ProjectStatus::Unknown);
    assert_eq!(ProjectStatus::from_ddev("\u{a0}paused\u{3000}"), ProjectStatus::Paused);
}

#[test]
fn sort_is_stable_for_equal_names() {
    let raw = Json::Array(vec![
        Json::Object(vec![str_member("name", "b"), str_member("type", "first")]),
        Json::Object(vec![str_member("name", "A")]),
        Json::Object(vec![str_member("name", "B"), str_member("type", "second")]),
        Json::Object(vec![str_member("name", "a")]),
    ]);
    let projects = parse_project_list(&raw).unwrap();
    let names: Vec<&str> = projects.iter().map(|p| p.name.as_str()).collect();
    assert_eq!(names, vec!["A", "a", "b", "B"]);
    assert_eq!(projects[2].kind, "first");
    assert_eq!(projects[3].kind, "second");
}

#[test]
fn non_array_payload_is_refused() {
    let err = parse_project_list(&Json::Bool(true)).unwrap_err();
    match err {
        DdevError::Parse(m) => assert_eq!(m, "expected `raw` to be an array"),
        other => panic!("unexpected error {:?}", other),
    }
}

#[test]
fn field_of_wrong_type_is_a_parse_error() {
    let raw = Json::Array(vec![Json::Object(vec![
        str_member("name", "x"),
        ("status".to_string(), Json::Number("5".to_string(), false)),
    ])]);
    match parse_project_list(&raw).unwrap_err() {
        DdevError::Parse(m) => assert_eq!(m, "invalid type: integer `5`, expected a string"),
        other => panic!("unexpected error {:?}", other),
    }
    let raw = Json::Array(vec![Json::Object(vec![("name".to_string(), Json::Null)])]);
    match parse_project_list(&raw).unwrap_err() {
        DdevError::Parse(m) => assert_eq!(m, "invalid type: null, expected a string"),
        other => panic!("unexpected error {:?}", other),
    }
    let raw = Json::Array(vec![Json::Str("x".to_string())]);
    match parse_project_list(&raw).unwrap_err() {
        DdevError::Parse(m) => {
            assert_eq!(m, "invalid type: string \"x\", expected struct RawProject")
        }
        other => panic!("unexpected error {:?}", other),
    }
}

#[test]
fn array_element_reads_by_position() {
    let raw = Json::Array(vec![Json::Array(vec![
        Json::Str("pos".to_string()),
        Json::Str("Running".to_string()),
    ])]);
    let projects = parse_project_list(&raw).unwrap();
    assert_eq!(projects[0].name, "pos");
    assert_eq!(projects[0].status, ProjectStatus::Running);
    assert_eq!(projects[0].kind, "");

    let long: Vec<Json> = (0..11).map(|i| Json::Str(format!("f{}", i))).collect();
    match parse_project_list(&Json::Array(vec![Json::Array(long)])).unwrap_err() {
        DdevError::Parse(m) => {
            assert_eq!(m, "invalid length 11, expected fewer elements in array")
        }
        other => panic!("unexpected error {:?}", other),
    }
}

#[test]
fn payload_found_on_a_later_line() {
    let out = "garbage\n\r\n  {\"msg\":\"x\"}  \n{\"raw\":null}\r\n{\"raw\":1}\n";
    let raw = extract_raw(out).unwrap();
    assert!(raw.is_null());
}

#[test]
fn list_projects_reads_a_run() {
    let projects = list_projects(&ok_run(LIST_OUTPUT)).unwrap();
    let names: Vec<&str> = projects.iter().map(|p| p.name.as_str()).collect();
    assert_eq!(names, vec!["agora.community", "Alpha", "beta", "Zeta"]);
    assert_eq!(projects[2].status, ProjectStatus::Paused);
}

#[test]
fn describe_project_reads_a_run() {
    let raw = describe_project("agora.community", &ok_run(DESCRIBE_OUTPUT)).unwrap();
    assert_eq!(raw.get("status").and_then(|v| v.as_str()), Some("running"));
}

#[test]
fn check_reports_version_or_absence() {
    let a = check(&ok_run("ddev version v1.25.2\n"));
    assert!(a.available);
    assert_eq!(a.version.as_deref(), Some("ddev version v1.25.2"));
    assert!(a.message.is_none());

    let a = check(&CommandOutcome::Unstarted {
        missing: true,
        message: "No such file or directory (os error 2)".to_string(),
    });
    assert!(!a.available);
    assert!(a.version.is_none());
    assert_eq!(a.message.as_deref(), Some("`ddev` was not found on your PATH."));

    let a = check(&CommandOutcome::Unstarted {
        missing: false,
        message: "Permission denied (os error 13)".to_string(),
    });
    assert_eq!(
        a.message.as_deref(),
        Some("failed to run ddev: Permission denied (os error 13)")
    );
}

#[test]
fn failed_lifecycle_surfaces_stderr() {
    match start_project("web", &failed_run("  Docker is not running\n")).unwrap_err() {
        DdevError::CommandFailed(m) => assert_eq!(m, "Docker is not running"),
        other => panic!("unexpected error {:?}", other),
    }
    match stop_project("web", &failed_run(" \n")).unwrap_err() {
        DdevError::CommandFailed(m) => {
            assert_eq!(m, "`ddev stop web` exited with exit status: 1")
        }
        other => panic!("unexpected error {:?}", other),
    }
    assert!(restart_project("web", &ok_run("restarted\n")).is_ok());
}

#[test]
fn error_messages() {
    assert_eq!(DdevError::NotFound.message(), "`ddev` was not found on your PATH");
    assert_eq!(DdevError::CommandFailed("boom".to_string()).message(), "boom");
    assert_eq!(
        DdevError::Parse("bad".to_string()).message(),
        "could not parse ddev output: bad"
    );
    assert_eq!(DdevError::Io("io".to_string()).message(), "failed to run ddev: io");
}

#[test]
fn list_failure_with_invalid_utf8_is_decoded_lossily() {
    let out = CommandOutcome::Exited {
        success: false,
        status: "exit status: 1".to_string(),
        stdout: Vec::new(),
        stderr: vec![b'b', 0xff, b'd'],
    };
    match list_projects(&out).unwrap_err() {
        DdevError::CommandFailed(m) => assert_eq!(m, "b\u{fffd}d"),
        other => panic!("unexpected error {:?}", other),
    }
}

#[test]
fn unknown_members_are_ignored() {
    let raw = Json::Array(vec![Json::Object(vec![
        ("extra".to_string(), Json::Number("1.5".to_string(), true)),
        str_member("name", "web"),
        ("services".to_string(), Json::Object(vec![])),
        str_member("status", "stopped"),
    ])]);
    let projects = parse_project_list(&raw).unwrap();
    assert_eq!(projects[0].name, "web");
    assert_eq!(projects[0].status, ProjectStatus::Stopped);
}
