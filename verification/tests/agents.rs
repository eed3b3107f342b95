use omp_desktop::agents::{
    advisor_of, check_process_name, decode_scopes, parked, parked_by_id, ps_failure, stop_outcome,
    transcript_id, ArtifactEntry, SessionHeader,
};
use omp_desktop::json::{JsonNumber, JsonValue};

/// serde_json's reading of the engine's output, in the library's JSON.
fn value(raw: &serde_json::Value) -> JsonValue {
    match raw {
        serde_json::Value::Null => JsonValue::Null,
        serde_json::Value::Bool(b) => JsonValue::Bool(*b),
        serde_json::Value::Number(n) => JsonValue::Number(JsonNumber {
            as_u64: n.as_u64(),
            as_i64: n.as_i64(),
            whole: n.as_f64().filter(|f| f.is_finite() && *f >= 0.0).map(|f| f as u64),
        }),
        serde_json::Value::String(s) => JsonValue::Text(s.clone()),
        serde_json::Value::Array(items) => JsonValue::List(items.iter().map(value).collect()),
        serde_json::Value::Object(fields) => {
            JsonValue::Object(fields.iter().map(|(k, v)| (k.clone(), value(v))).collect())
        }
    }
}

/// What `omp ps --json` printed, parsed the way the host parses it.
fn parsed(stdout: &[u8]) -> Result<Vec<JsonValue>, String> {
    serde_json::from_slice::<Vec<serde_json::Value>>(stdout)
        .map(|items| items.iter().map(value).collect())
        .map_err(|error| error.to_string())
}

const PS_CAPTURE: &str = r#"[
  {
    "kind": "project",
    "projectDir": "/home/GioViale/Projects/Websites_or_webapp/OhMyPiApp",
    "runtimeDir": "/home/GioViale/.omp/run/daemons/011f02c4f8183799",
    "daemons": [
      {
        "name": "omp.lsp.mux",
        "id": "7cbdd50a-f311-40ba-a78d-65630ecd5c8e",
        "state": "exited",
        "createdAt": 1789909185609,
        "startedAt": 1789909185609,
        "readyAt": 1789909186041,
        "exitedAt": 1789910086197,
        "exitCode": 0,
        "restartCount": 0,
        "outputBytes": 87,
        "persist": false,
        "detached": false,
        "command": "/home/GioViale/.bun/bin/bun cli.js __omp_worker_lsp_mux",
        "cwd": "/home/GioViale/Projects/Websites_or_webapp/OhMyPiApp",
        "supervised": false
      },
      {
        "name": "vite",
        "id": "a42e33df-5695-4586-abfb-173ed814f32e",
        "state": "exited",
        "createdAt": 1789916421544,
        "startedAt": 1789916421544,
        "readyAt": 1789916422154,
        "exitedAt": 1789929078950,
        "exitCode": 143,
        "restartCount": 0,
        "outputBytes": 7898,
        "owner": "01a0bb7d-7260-757d-b395-39e22d9655d3",
        "readyMatch": "Local:   http",
        "persist": false,
        "detached": false,
        "command": "bun run dev",
        "cwd": "/home/GioViale/Projects/Websites_or_webapp/OhMyPiApp/frontend",
        "supervised": false
      }
    ]
  }
]"#;

#[test]
fn a_ps_capture_decodes_into_scopes_and_daemons() {
    let scopes = decode_scopes(parsed(PS_CAPTURE.as_bytes())).expect("the engine's own output");

    assert_eq!(scopes.len(), 1);
    let scope = &scopes[0];
    assert_eq!(scope.kind, "project");
    assert_eq!(scope.project_dir, "/home/GioViale/Projects/Websites_or_webapp/OhMyPiApp");
    assert_eq!(scope.broker_pid, None, "no live broker, and the capture has no pid");

    assert_eq!(scope.daemons.len(), 2);
    let vite = &scope.daemons[1];
    assert_eq!(vite.name, "vite");
    assert_eq!(vite.state, "exited");
    assert_eq!(vite.command, "bun run dev");
    assert_eq!(vite.exit_code, Some(143));
    assert_eq!(vite.output_bytes, 7898);
    assert_eq!(
        vite.owner.as_deref(),
        Some("01a0bb7d-7260-757d-b395-39e22d9655d3"),
        "the session that started it is what lets the panel attribute it"
    );
    assert_eq!(vite.started_at_ms, 1789916421544);
    assert_eq!(vite.exited_at_ms, Some(1789929078950));
    assert!(!vite.supervised);
    assert_eq!(scope.daemons[0].owner, None);
}

#[test]
fn output_that_is_not_json_is_an_error() {
    assert!(decode_scopes(parsed(b"omp v18.2.6\n")).is_err());
    assert!(decode_scopes(parsed(b"")).is_err());
    let error = decode_scopes(Err("expected value".to_string())).unwrap_err();
    assert_eq!(error, "`omp ps --json` did not print the JSON this app reads: expected value");
}

#[test]
fn an_advisor_slug_is_kept() {
    let (advisor, slug) = advisor_of("__advisor.critic");

    assert!(advisor);
    assert_eq!(slug.as_deref(), Some("critic"));
    assert_eq!(advisor_of("advisor"), (false, None));
    assert_eq!(advisor_of("__advisor"), (true, None));
    assert_eq!(advisor_of("__advisor."), (false, None));
}

fn file(name: &str, header: Option<(&str, Option<&str>)>) -> ArtifactEntry {
    ArtifactEntry::File {
        name: name.to_string(),
        path: format!("/tmp/sessions/session/{name}"),
        bytes: 120,
        modified_ms: 1_700_000_000_000,
        header: header.map(|(cwd, parent)| SessionHeader {
            cwd: cwd.to_string(),
            parent: parent.map(|p| p.to_string()),
        }),
    }
}

#[test]
fn a_session_with_no_artifacts_directory_has_no_parked_agents() {
    let agents = parked("/tmp/sessions/session.jsonl", None).expect("no agents");
    assert!(agents.is_empty());
}

#[test]
fn parked_lists_transcripts_and_skips_the_adjacent_artifacts() {
    let listing = vec![
        file("Scout.jsonl", Some(("/tmp/project", None))),
        file("Critic.jsonl", Some(("/tmp/project", Some("/tmp/sessions/session.jsonl")))),
        file("Scout.md", None),
        file("Scout.json", None),
        file("Scout.patch", None),
        file("1170.bash.log", None),
        file("Scout.jsonl.bak", None),
        file("__advisor.jsonl", None),
    ];
    let mut agents = parked("/tmp/sessions/session.jsonl", Some(listing)).expect("the parked rows");
    agents.sort_by(|left, right| left.id.cmp(&right.id));

    let ids: Vec<&str> = agents.iter().map(|agent| agent.id.as_str()).collect();
    assert_eq!(ids, vec!["Critic", "Scout", "__advisor"]);

    let scout = &agents[1];
    assert_eq!(scout.cwd, "/tmp/project");
    assert_eq!(scout.parent, None);
    assert_eq!(agents[0].parent.as_deref(), Some("/tmp/sessions/session.jsonl"));
    assert!(scout.bytes > 0);
    assert!(!scout.advisor);

    let advisor = &agents[2];
    assert!(advisor.advisor);
    assert_eq!(advisor.advisor_slug, None);
    assert_eq!(advisor.cwd, "");
}

#[test]
fn a_nested_child_is_found_beside_its_parent() {
    let listing = vec![
        file("Parent.jsonl", Some(("/tmp/project", None))),
        ArtifactEntry::Dir {
            entries: vec![file(
                "Parent.Child.jsonl",
                Some(("/tmp/project", Some("/tmp/sessions/session/Parent.jsonl"))),
            )],
        },
    ];
    let agents = parked("/tmp/sessions/session.jsonl", Some(listing)).expect("the parked rows");
    let ids: Vec<&str> = agents.iter().map(|agent| agent.id.as_str()).collect();
    assert_eq!(ids, vec!["Parent", "Parent.Child"]);
    assert_eq!(agents[1].parent.as_deref(), Some("/tmp/sessions/session/Parent.jsonl"));
}

#[test]
fn an_unknown_id_is_reported_by_name() {
    let listing = || Some(vec![file("Scout.jsonl", Some(("/tmp/project", None)))]);
    let found = parked_by_id("/tmp/sessions/session.jsonl", listing(), "Scout").expect("the row");
    assert_eq!(found.id, "Scout");

    let error = parked_by_id("/tmp/sessions/session.jsonl", listing(), "../secrets").expect_err("no such agent");
    assert!(error.contains("../secrets"), "the id is named back: {error}");
}

#[test]
fn a_file_that_is_not_a_session_has_no_parked_agents_to_list() {
    let error = parked("/tmp/notes.txt", None).unwrap_err();
    assert!(error.contains("is not a session file"), "{error}");
}

#[test]
fn a_transcript_is_a_jsonl_file_that_is_not_a_backup() {
    assert_eq!(transcript_id("Scout.jsonl").as_deref(), Some("Scout"));
    assert_eq!(transcript_id("Parent.Child.jsonl").as_deref(), Some("Parent.Child"));
    assert_eq!(transcript_id("Scout.jsonl.bak"), None);
    assert_eq!(transcript_id("Scout.bak.jsonl"), None);
    assert_eq!(transcript_id("Scout.md"), None);
}

#[test]
fn a_name_that_could_be_a_flag_or_two_arguments_is_refused() {
    assert!(check_process_name("vite").is_ok());
    assert!(check_process_name("omp.lsp.mux").is_ok());
    for refused in ["", "-rf", "two words", "tab\there", "nl\n", "nul\u{0}"] {
        let error = check_process_name(refused).expect_err(refused);
        assert!(error.ends_with("is not a process name"), "{error}");
    }
}

#[test]
fn a_stop_answers_with_the_engines_words() {
    assert_eq!(stop_outcome("vite", true, Some(0), " stopped vite \n", ""), Ok("stopped vite".to_string()));
    assert_eq!(stop_outcome("vite", true, Some(0), "", " note "), Ok("note".to_string()));
    assert_eq!(stop_outcome("vite", false, Some(2), "", "no such process\n"), Err("no such process".to_string()));
    assert_eq!(
        stop_outcome("vite", false, Some(3), "ignored", "  "),
        Err("`omp ps stop vite` exited with 3".to_string())
    );
    assert_eq!(
        stop_outcome("vite", false, None, "", ""),
        Err("`omp ps stop vite` exited with -1".to_string())
    );
}

#[test]
fn a_failed_listing_names_its_exit_and_its_reason() {
    assert_eq!(ps_failure(Some(1), " boom\n"), "`omp ps` exited with 1: boom");
    assert_eq!(ps_failure(None, ""), "`omp ps` exited with -1: ");
}

#[test]
fn parked_rows_come_ordered_by_agent_id() {
    let listing = vec![
        file("Scout.jsonl", Some(("/tmp/project", None))),
        ArtifactEntry::Dir {
            entries: vec![file("Alpha.Child.jsonl", Some(("/tmp/project", None)))],
        },
        file("Critic.jsonl", Some(("/tmp/project", None))),
        file("__advisor.jsonl", None),
        file("Alpha.jsonl", Some(("/tmp/project", None))),
    ];
    let agents = parked("/tmp/sessions/session.jsonl", Some(listing)).expect("the parked rows");
    let ids: Vec<&str> = agents.iter().map(|agent| agent.id.as_str()).collect();
    assert_eq!(ids, vec!["Alpha", "Alpha.Child", "Critic", "Scout", "__advisor"]);
}
