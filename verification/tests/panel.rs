use omp_desktop::dto::{TodoPhaseInput, TodoTaskInput, WorkspaceEntry};
use omp_desktop::json::Json;
use omp_desktop::panel::{
    artifact_snapshot, artifacts_dir, contained, gone, level, outgoing, phases, pick_artifact,
    requested, validate_id, TodoPhase, TodoTask, MAX_ARTIFACT_BYTES, MAX_ENTRIES,
};

fn text(s: &str) -> Json {
    Json::Text(s.to_string())
}

fn object(fields: Vec<(&str, Json)>) -> Json {
    Json::Object(fields.into_iter().map(|(k, v)| (k.to_string(), v)).collect())
}

fn entry(name: &str, is_dir: bool) -> WorkspaceEntry {
    WorkspaceEntry {
        name: name.to_string(),
        path: format!("/work/{name}"),
        is_dir,
        size: if is_dir { 0 } else { 1 },
        modified_at: 1_700_000_000_000,
    }
}

#[test]
fn an_artifact_id_must_be_digits_and_nothing_else() {
    assert!(validate_id("0").is_ok());
    assert!(validate_id("143").is_ok());

    for refused in [
        "",
        "..",
        "../etc/passwd",
        "../../../../etc/passwd",
        "1/../../etc/passwd",
        "1.bash",
        "1.",
        "/etc/passwd",
        "-1",
        "1e3",
        " 1",
    ] {
        assert!(validate_id(refused).is_err(), "`{refused}` is not an artifact id");
    }
}

#[test]
fn an_empty_plan_is_refused_and_a_plan_is_sent_without_an_absent_blocker() {
    assert!(outgoing(&[]).is_err());

    let sent = outgoing(&[TodoPhaseInput {
        name: "Implementation".to_string(),
        tasks: vec![
            TodoTaskInput {
                content: "write it".to_string(),
                status: "pending".to_string(),
                blocker: None,
            },
            TodoTaskInput {
                content: "ship it".to_string(),
                status: "blocked".to_string(),
                blocker: Some("the review".to_string()),
            },
        ],
    }])
    .expect("a plan with phases in it is sent");

    assert_eq!(
        sent,
        Json::List(vec![object(vec![
            ("name", text("Implementation")),
            (
                "tasks",
                Json::List(vec![
                    object(vec![("content", text("write it")), ("status", text("pending"))]),
                    object(vec![
                        ("content", text("ship it")),
                        ("status", text("blocked")),
                        ("blocker", text("the review")),
                    ]),
                ]),
            ),
        ])]),
        "a task without a blocker must not carry `blocker: null`"
    );
}

#[test]
fn the_panels_plan_shape_is_the_engines() {
    let plan = vec![TodoPhase {
        name: "Implementation".to_string(),
        tasks: vec![
            TodoTask {
                content: "write it".to_string(),
                status: "in_progress".to_string(),
                blocker: None,
            },
            TodoTask {
                content: "ship it".to_string(),
                status: "blocked".to_string(),
                blocker: Some("the review".to_string()),
            },
        ],
    }];

    let shaped = phases(&plan);
    assert_eq!(shaped.len(), 1);
    assert_eq!(shaped[0].name, "Implementation");
    assert_eq!(shaped[0].tasks[0].status, "in_progress");
    assert_eq!(shaped[0].tasks[1].blocker.as_deref(), Some("the review"));

    let blank = vec![TodoPhase {
        name: "Implementation".to_string(),
        tasks: vec![TodoTask {
            content: "write it".to_string(),
            status: "blocked".to_string(),
            blocker: Some("   ".to_string()),
        }],
    }];
    assert_eq!(phases(&blank)[0].tasks[0].blocker, None);
}

#[test]
fn an_artifact_is_read_from_beside_the_session_file() {
    let directory = artifacts_dir("/store/sessions/2026-09-20_abc.jsonl").expect("the engine's rule");
    assert_eq!(directory, "/store/sessions/2026-09-20_abc");
    assert!(artifacts_dir("/tmp/notes.txt").is_err());
    assert!(artifacts_dir(".jsonl").is_err());

    let names = vec!["10.bash.log".to_string(), "7.bash.log".to_string(), "1.read.log".to_string()];
    assert_eq!(pick_artifact("7", Some(names.clone())).unwrap(), "7.bash.log");
    assert_eq!(pick_artifact("1", Some(names.clone())).unwrap(), "1.read.log");

    let refused = pick_artifact("../../../etc/passwd", Some(names.clone())).unwrap_err();
    assert!(refused.contains("is not an artifact id"), "{refused}");

    let missing = pick_artifact("8", Some(names)).unwrap_err();
    assert!(missing.contains("omp gc"), "{missing}");
    assert_eq!(pick_artifact("8", None).unwrap_err(), gone("8"));
}

#[test]
fn two_files_for_one_id_resolve_to_the_first_in_order() {
    let names = vec!["3.z.log".to_string(), "3.a.log".to_string()];
    assert_eq!(pick_artifact("3", Some(names)).unwrap(), "3.a.log");
}

#[test]
fn an_artifact_over_the_cap_reports_its_real_size() {
    let content = vec![b'x'; MAX_ARTIFACT_BYTES as usize];
    let read = artifact_snapshot("3", "/a/3.bash.log".to_string(), MAX_ARTIFACT_BYTES + 16, &content);
    assert!(read.truncated, "a file past the cap must say so");
    assert_eq!(read.bytes, MAX_ARTIFACT_BYTES + 16);
    assert_eq!(read.text.len(), MAX_ARTIFACT_BYTES as usize);

    let exact = artifact_snapshot("4", "/a/4.bash.log".to_string(), MAX_ARTIFACT_BYTES, &content);
    assert!(!exact.truncated);

    let small = artifact_snapshot("7", "/a/7.bash.log".to_string(), 8, b"one\ntwo\n");
    assert_eq!(small.text, "one\ntwo\n");
    assert_eq!(small.id, "7");
    assert!(!small.truncated);
}

#[test]
fn a_path_outside_the_workspace_is_refused_and_one_inside_is_not() {
    assert!(contained("/work", "/work/src").is_ok());
    assert!(contained("/work", "/work").is_ok());
    let refused = contained("/work/app", "/work/apple").unwrap_err();
    assert!(refused.contains("outside the thread's workspace"), "{refused}");
    assert!(contained("/work", "/etc").is_err());

    assert_eq!(requested("/work", "src"), "/work/src");
    assert_eq!(requested("/work", "/elsewhere"), "/elsewhere");
}

#[test]
fn one_level_is_sorted_directories_first_and_nothing_is_filtered() {
    let listed = level(vec![
        entry("beta.txt", false),
        entry("zeta", true),
        entry(".env", false),
        entry("Alpha", true),
        entry("Beta.txt", false),
        entry(".git", true),
    ]);
    let names: Vec<&str> = listed.iter().map(|e| e.name.as_str()).collect();
    assert_eq!(names, [".git", "Alpha", "zeta", ".env", "Beta.txt", "beta.txt"]);
}

#[test]
fn a_level_stops_at_the_cap_rather_than_reading_a_whole_directory() {
    let many: Vec<WorkspaceEntry> = (0..MAX_ENTRIES + 5).map(|i| entry(&format!("{i:04}.txt"), false)).collect();
    let listed = level(many);
    assert_eq!(listed.len(), MAX_ENTRIES);
    assert_eq!(listed[0].name, "0000.txt");
}

#[test]
fn names_are_compared_without_regard_to_case() {
    let listed = level(vec![entry("Banana", false), entry("apple", false), entry("Ärger", false), entry("zebra", false)]);
    let names: Vec<&str> = listed.iter().map(|e| e.name.as_str()).collect();
    assert_eq!(names, ["apple", "Banana", "zebra", "Ärger"]);
}

#[test]
fn a_whole_file_handed_over_is_cut_at_the_cap() {
    let content = vec![b'y'; MAX_ARTIFACT_BYTES as usize + 100];
    let read = artifact_snapshot("5", "/a/5.bash.log".to_string(), MAX_ARTIFACT_BYTES + 100, &content);
    assert!(read.truncated);
    assert_eq!(read.bytes, MAX_ARTIFACT_BYTES + 100);
    assert_eq!(read.text.len(), MAX_ARTIFACT_BYTES as usize);
}
