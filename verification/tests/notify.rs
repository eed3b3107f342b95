use omp_desktop::agents::decode_scopes;
use omp_desktop::json::{JsonNumber, JsonValue};
use omp_desktop::notify::{
    departures, running_jobs, DepartedJob, DialogRequest, Facts, Notifier, StreamEvent, KIND_FAILED,
    KIND_JOB_FINISHED, KIND_NEEDS_YOU, KIND_TURN_FINISHED, MAX_BODY_CHARS,
};

fn facts_of(thread: &str, name: &str) -> Facts {
    Facts {
        thread: thread.to_string(),
        name: Some(name.to_string()),
        failure: None,
        answer: None,
    }
}

fn dialog(id: &str, title: &str) -> DialogRequest {
    DialogRequest {
        id: id.to_string(),
        title: title.to_string(),
        message: String::new(),
    }
}

fn retry_gave_up(final_error: &str) -> StreamEvent {
    StreamEvent::RetryGaveUp {
        final_error: Some(final_error.to_string()),
    }
}

fn text(s: &str) -> JsonValue {
    JsonValue::Text(s.to_string())
}

fn number(n: u64) -> JsonValue {
    JsonValue::Number(JsonNumber {
        as_u64: Some(n),
        as_i64: Some(n as i64),
        whole: Some(n),
    })
}

fn object(fields: Vec<(&str, JsonValue)>) -> JsonValue {
    JsonValue::Object(fields.into_iter().map(|(k, v)| (k.to_string(), v)).collect())
}

#[test]
fn a_finished_turn_reports_once_with_the_engines_words() {
    let mut notifier = Notifier::new();
    let mut facts = facts_of("session-7", "Refactor the parser");
    facts.answer = Some("Done — 3 files changed.".to_string());

    let notification = notifier
        .event(&StreamEvent::EndsRun, &facts)
        .expect("a terminal end reports");

    assert_eq!(notification.kind, KIND_TURN_FINISHED);
    assert_eq!(notification.thread, "session-7");
    assert_eq!(notification.title, "Refactor the parser");
    assert_eq!(notification.body, "Done — 3 files changed.");
    assert_eq!(notification.job_id, None);
}

#[test]
fn one_sequence_produces_each_kind_once() {
    let mut notifier = Notifier::new();
    let mut facts = facts_of("session-7", "Ship the release");
    let mut kinds = Vec::new();

    // agent_start, turn_start and message_start are none of the triggers.
    for _ in 0..3 {
        assert_eq!(notifier.event(&StreamEvent::Other, &facts), None);
    }

    if let Some(notification) = notifier.dialog(&dialog("ui_1", "Allow tool: bash"), &facts) {
        kinds.push(notification.kind);
    }
    if let Some(notification) = notifier.dialog(&dialog("ui_1", "Allow tool: bash"), &facts) {
        kinds.push(notification.kind);
    }
    if let Some(notification) = notifier.dialog(&dialog("ui_2", "Allow tool: write"), &facts) {
        kinds.push(notification.kind);
    }

    facts.answer = Some("Released v1.0.0.".to_string());
    if let Some(notification) = notifier.event(&StreamEvent::EndsRun, &facts) {
        kinds.push(notification.kind);
    }

    if let Some(notification) = notifier.event(&retry_gave_up("socket hang up"), &facts) {
        kinds.push(notification.kind);
    }

    assert_eq!(
        kinds,
        vec![KIND_NEEDS_YOU, KIND_NEEDS_YOU, KIND_TURN_FINISHED, KIND_FAILED],
        "each real occurrence fires once, and a repeated dialog does not"
    );

    let departed = DepartedJob {
        name: "vite".to_string(),
        state: "exited".to_string(),
        command: "bun run dev".to_string(),
        owner: Some("session-7".to_string()),
    };
    assert_eq!(notifier.job(&departed, Some("Ship the release")).kind, KIND_JOB_FINISHED);
}

#[test]
fn a_non_terminal_end_and_a_mid_turn_event_report_nothing() {
    let mut notifier = Notifier::new();
    let facts = facts_of("session-7", "Refactor the parser");

    // A non-terminal agent_end, agent_start, turn_end and a retry that succeeded.
    for _ in 0..4 {
        assert_eq!(notifier.event(&StreamEvent::Other, &facts), None);
    }
}

#[test]
fn a_failed_turn_reports_the_engines_sentence_and_a_retry_that_gave_up_reports_once() {
    let mut notifier = Notifier::new();
    let mut facts = facts_of("session-7", "Refactor the parser");
    facts.failure = Some("429 rate limited".to_string());

    let notification = notifier
        .event(&StreamEvent::EndsRun, &facts)
        .expect("a failed turn reports");

    assert_eq!(notification.kind, KIND_FAILED);
    assert_eq!(notification.body, "429 rate limited");

    assert_eq!(notifier.event(&StreamEvent::EndsRun, &facts), None);

    let mut retrying = Notifier::new();
    let mut facts = facts_of("session-7", "Refactor the parser");
    facts.failure = Some("connection reset".to_string());
    let notification = retrying
        .event(&retry_gave_up("connection reset"), &facts)
        .expect("an exhausted retry reports");

    assert_eq!(notification.kind, KIND_FAILED);
    assert_eq!(notification.body, "connection reset");
}

#[test]
fn a_blocking_dialog_is_announced_once_per_id() {
    let mut notifier = Notifier::new();
    let facts = facts_of("session-7", "Deploy the app");

    let first = notifier
        .dialog(&dialog("ui_1", "Allow tool: bash\nCommand: rm -rf build"), &facts)
        .expect("a new dialog needs you");
    assert_eq!(first.kind, KIND_NEEDS_YOU);
    assert_eq!(first.title, "Deploy the app");
    assert_eq!(first.body, "Allow tool: bash\nCommand: rm -rf build");

    assert_eq!(
        notifier.dialog(&dialog("ui_1", "Allow tool: bash\nCommand: rm -rf build"), &facts),
        None
    );

    assert!(notifier.dialog(&dialog("ui_2", "Allow tool: write"), &facts).is_some());
}

#[test]
fn a_departure_is_reported_with_its_owner_or_without_one() {
    let notifier = Notifier::new();

    let owned = DepartedJob {
        name: "vite".to_string(),
        state: "exited".to_string(),
        command: "bun run dev".to_string(),
        owner: Some("session-7".to_string()),
    };
    let notification = notifier.job(&owned, Some("Deploy the app"));
    assert_eq!(notification.kind, KIND_JOB_FINISHED);
    assert_eq!(notification.thread, "session-7");
    assert_eq!(notification.title, "Deploy the app");
    assert_eq!(notification.body, "exited: bun run dev");
    assert_eq!(notification.job_id.as_deref(), Some("vite"));

    let unowned = DepartedJob {
        owner: None,
        ..owned.clone()
    };
    let notification = notifier.job(&unowned, None);
    assert_eq!(notification.thread, "", "no owner means no thread, not a guessed one");
    assert_eq!(notification.title, "vite");
}

#[test]
fn only_a_daemon_leaving_the_running_list_is_a_departure() {
    let before = decode_scopes(Ok(vec![object(vec![
        ("kind", text("project")),
        ("projectDir", text("/projects/app")),
        (
            "daemons",
            JsonValue::List(vec![
                object(vec![
                    ("name", text("vite")),
                    ("state", text("running")),
                    ("command", text("bun run dev")),
                    ("owner", text("s1")),
                ]),
                object(vec![("name", text("omp.lsp.mux")), ("state", text("starting"))]),
            ]),
        ),
    ])]))
    .expect("the engine's own shape");

    assert_eq!(running_jobs(&before).len(), 2);

    let after = decode_scopes(Ok(vec![
        object(vec![
            ("kind", text("project")),
            ("projectDir", text("/projects/app")),
            (
                "daemons",
                JsonValue::List(vec![
                    object(vec![
                        ("name", text("vite")),
                        ("state", text("exited")),
                        ("command", text("bun run dev")),
                        ("owner", text("s1")),
                        ("exitCode", number(143)),
                    ]),
                    object(vec![("name", text("omp.lsp.mux")), ("state", text("failed"))]),
                ]),
            ),
        ]),
        object(vec![
            ("kind", text("project")),
            ("projectDir", text("/projects/other")),
            (
                "daemons",
                JsonValue::List(vec![object(vec![
                    ("name", text("vite")),
                    ("state", text("exited")),
                    ("command", text("bun run dev")),
                ])]),
            ),
        ]),
    ]))
    .expect("the engine's own shape");

    let left = departures(&running_jobs(&before), &running_jobs(&after));
    assert_eq!(left.len(), 2, "both running daemons left: {left:?}");
    assert_eq!(
        left.iter().map(|job| job.name.as_str()).collect::<Vec<_>>(),
        ["omp.lsp.mux", "vite"],
        "sorted, so two departures in one poll arrive in a stable order"
    );
    assert_eq!(left[1].owner.as_deref(), Some("s1"));
    assert_eq!(left[0].owner, None);
}

#[test]
fn a_long_body_is_cut_rather_than_summarised() {
    let mut notifier = Notifier::new();
    let mut facts = facts_of("session-7", "Refactor");
    facts.answer = Some("x".repeat(MAX_BODY_CHARS * 2));

    let body = notifier
        .event(&StreamEvent::EndsRun, &facts)
        .expect("a terminal end reports")
        .body;

    assert_eq!(body.chars().count(), MAX_BODY_CHARS + 1);
    assert!(body.starts_with("xxxx"));
    assert!(body.ends_with('…'));
}

#[test]
fn a_body_at_the_limit_is_kept_whole() {
    let mut notifier = Notifier::new();
    let mut facts = facts_of("session-7", "Refactor");
    facts.answer = Some("y".repeat(MAX_BODY_CHARS));
    let body = notifier.event(&StreamEvent::EndsRun, &facts).unwrap().body;
    assert_eq!(body, "y".repeat(MAX_BODY_CHARS));
}

#[test]
fn a_host_failure_is_reported_as_failed_with_its_reason() {
    let notifier = Notifier::new();
    let facts = facts_of("session-7", "Refactor");
    let notification = notifier.host_failure(&facts, "the engine exited");
    assert_eq!(notification.kind, KIND_FAILED);
    assert_eq!(notification.body, "the engine exited");
    assert_eq!(notification.thread, "session-7");
}

#[test]
fn an_unnamed_session_and_an_untitled_dialog_fall_back() {
    let mut notifier = Notifier::new();
    let facts = Facts {
        thread: "session-9".to_string(),
        ..Facts::default()
    };
    let request = DialogRequest {
        id: "ui_3".to_string(),
        title: "   ".to_string(),
        message: "Pick one".to_string(),
    };
    let notification = notifier.dialog(&request, &facts).unwrap();
    assert_eq!(notification.body, "Pick one");
    assert_eq!(notification.title, "session-9");
}

#[test]
fn a_daemon_that_is_still_running_is_not_a_departure() {
    let scope = |state: &str| {
        decode_scopes(Ok(vec![object(vec![
            ("projectDir", text("/p")),
            (
                "daemons",
                JsonValue::List(vec![object(vec![("name", text("vite")), ("state", text(state))])]),
            ),
        ])]))
        .unwrap()
    };
    let running = running_jobs(&scope("running"));
    assert!(departures(&running, &running_jobs(&scope("starting"))).is_empty());
    assert!(running_jobs(&scope("exited")).is_empty());
}
