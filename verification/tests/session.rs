use omp_desktop::dto::UiAnswer;
use omp_desktop::session::{
    resolve_answer, DialogAnswer,
    auto_approves, command_from_approval, command_program, facts, is_generated_title_receipt,
    last_answer, last_failure, mode_switch_idle, optional, simple_command_program, tagged,
    ApprovalRequest, ControlFlags, ModeSwitchGate, SettleWatch, ThreadId, TitleGeneration, unusable_dialog_message, TranscriptRow,
};

fn idle() -> ControlFlags {
    ControlFlags {
        is_streaming: false,
        is_compacting: false,
        queued_message_count: 0,
    }
}

#[test]
fn mode_switch_waits_for_running_queued_and_blocked_work() {
    let idle = idle();
    assert!(mode_switch_idle(&idle, &idle, 0));

    let active = ControlFlags {
        is_streaming: true,
        ..idle
    };
    assert!(!mode_switch_idle(&active, &idle, 0));
    assert!(!mode_switch_idle(&idle, &active, 0));

    let queued = ControlFlags {
        queued_message_count: 1,
        ..idle
    };
    assert!(!mode_switch_idle(&queued, &idle, 0));

    let compacting = ControlFlags {
        is_compacting: true,
        ..idle
    };
    assert!(!mode_switch_idle(&compacting, &idle, 0));
    assert!(!mode_switch_idle(&idle, &compacting, 0));
    assert!(!mode_switch_idle(&idle, &idle, 1));
}

fn approval(title: &str) -> ApprovalRequest {
    ApprovalRequest {
        id: "ui_1".to_string(),
        select: true,
        title: title.to_string(),
        options: vec!["Approve".to_string(), "Deny".to_string()],
    }
}

#[test]
fn a_live_grant_only_answers_the_matching_engine_approval() {
    let granted = vec!["bash".to_string()];
    let granted_commands: Vec<String> = Vec::new();
    let original = approval("Allow tool: bash\nCommand: echo hello");

    assert!(auto_approves(&original, &granted, &granted_commands));

    for altered in [
        ApprovalRequest {
            title: "Allow tool: write".to_string(),
            ..original.clone()
        },
        ApprovalRequest {
            options: vec!["Approve".to_string(), "Later".to_string()],
            ..original.clone()
        },
        ApprovalRequest {
            select: false,
            ..original.clone()
        },
        ApprovalRequest {
            title: "Allow tool: bash/other".to_string(),
            ..original.clone()
        },
    ] {
        assert!(!auto_approves(&altered, &granted, &granted_commands));
    }
}

#[test]
fn a_conversation_command_grant_only_answers_simple_calls_of_that_program() {
    let granted_tools: Vec<String> = Vec::new();
    let granted_commands = vec!["node".to_string()];
    let ask = |command: &str| approval(&format!("Allow tool: bash\nCommand: {command}"));

    assert!(auto_approves(&ask("node check-index.js"), &granted_tools, &granted_commands));
    assert!(auto_approves(&ask("/usr/bin/node check-index.js"), &granted_tools, &granted_commands));
    for command in [
        "npm test",
        "node check-index.js; rm -rf /tmp/probe",
        "node $(touch /tmp/probe)",
        "node check-index.js | tee output.log",
        "NODE_OPTIONS=--inspect node check-index.js",
    ] {
        assert!(
            !auto_approves(&ask(command), &granted_tools, &granted_commands),
            "compound or different command must still ask: {command}"
        );
    }
}

#[test]
fn a_command_grant_uses_the_direct_executable_name() {
    assert_eq!(command_program("node check-index.js; echo done").unwrap(), "node");
    assert_eq!(command_program("/usr/bin/node check-index.js").unwrap(), "node");
    assert!(command_program("NODE_OPTIONS=--inspect node check-index.js").is_err());
    assert_eq!(simple_command_program("node check-index.js").as_deref(), Some("node"));
    assert_eq!(simple_command_program("node a.js; echo done"), None);
}

#[test]
fn automatic_title_receipts_are_hidden_but_other_command_output_is_not() {
    assert!(is_generated_title_receipt(
        "Could not generate a session title. Use /rename <title> to set one."
    ));
    assert!(is_generated_title_receipt("Session renamed to Short essay on Roman Empire."));
    assert!(!is_generated_title_receipt("Compacted 12 messages."));
}

#[test]
fn a_command_that_cannot_be_split_or_has_no_program_is_refused() {
    assert!(command_program("node 'unterminated").is_err());
    assert!(command_program("").is_err());
    assert!(command_program("''").is_err());
}

#[test]
fn the_command_is_read_from_the_approval_title() {
    assert_eq!(
        command_from_approval("Allow tool: bash\nCommand: echo hello").as_deref(),
        Some("echo hello")
    );
    assert_eq!(command_from_approval("Allow tool: write"), None);
}

#[test]
fn the_latest_failure_and_answer_are_read_from_the_end() {
    let rows = vec![
        TranscriptRow::Assistant {
            stop_reason: Some("stop".to_string()),
            error_message: None,
            text: "first answer".to_string(),
        },
        TranscriptRow::Notice {
            level: "error".to_string(),
            text: "connection reset".to_string(),
        },
        TranscriptRow::Assistant {
            stop_reason: Some("error".to_string()),
            error_message: Some("429 rate limited".to_string()),
            text: "  ".to_string(),
        },
        TranscriptRow::Other,
    ];
    assert_eq!(last_failure(&rows).as_deref(), Some("429 rate limited"));
    assert_eq!(last_answer(&rows).as_deref(), Some("first answer"));

    let healthy = vec![TranscriptRow::Assistant {
        stop_reason: Some("stop".to_string()),
        error_message: None,
        text: "pong".to_string(),
    }];
    assert_eq!(last_failure(&healthy), None);

    let bare = vec![TranscriptRow::Assistant {
        stop_reason: Some("error".to_string()),
        error_message: None,
        text: String::new(),
    }];
    assert_eq!(last_failure(&bare).as_deref(), Some("the turn failed"));

    let f = facts("session-7", Some("Name".to_string()), &rows);
    assert_eq!(f.thread, "session-7");
    assert_eq!(f.failure.as_deref(), Some("429 rate limited"));
    assert_eq!(f.answer.as_deref(), Some("first answer"));
}

#[test]
fn blank_text_is_absent() {
    assert_eq!(optional("  \n".to_string()), None);
    assert_eq!(optional(" x ".to_string()).as_deref(), Some(" x "));
}

#[test]
fn a_thread_id_follows_a_refile() {
    let mut id = ThreadId::new("a".to_string());
    assert_eq!(id.current(), "a");
    id.set("b".to_string());
    assert_eq!(id.current(), "b");
    let event = tagged("b", 7u32);
    assert_eq!(event.thread, "b");
    assert_eq!(event.payload, 7);
}

fn answer(value: Option<&str>, confirmed: Option<bool>, cancelled: Option<bool>, timed_out: Option<bool>) -> UiAnswer {
    UiAnswer {
        value: value.map(|v| v.to_string()),
        confirmed,
        cancelled,
        timed_out,
    }
}

#[test]
fn an_answer_means_the_one_response_its_shape_can_mean() {
    assert_eq!(
        resolve_answer(&answer(Some("Approve"), Some(true), Some(true), None)),
        Ok(DialogAnswer::Cancelled { timed_out: false }),
        "a cancellation wins over anything else it carries"
    );
    assert_eq!(
        resolve_answer(&answer(None, None, Some(true), Some(true))),
        Ok(DialogAnswer::Cancelled { timed_out: true })
    );
    assert_eq!(resolve_answer(&answer(Some("x"), Some(false), Some(false), None)), Ok(DialogAnswer::Confirmed(false)));
    assert_eq!(resolve_answer(&answer(Some("Approve"), None, None, None)), Ok(DialogAnswer::Value("Approve".to_string())));
    let refused = resolve_answer(&answer(None, None, None, None)).unwrap_err();
    assert!(refused.contains("`value`, `confirmed` or `cancelled`"), "{refused}");
}

#[test]
fn a_failed_turn_becomes_the_threads_error_and_a_healthy_one_does_not() {
    // The transcript's rows after a `message_end` the engine stopped with an error.
    let mut rows = vec![TranscriptRow::Assistant {
        stop_reason: Some("error".to_string()),
        error_message: Some("429 rate limited".to_string()),
        text: String::new(),
    }];
    assert_eq!(last_failure(&rows).as_deref(), Some("429 rate limited"));

    // A retry that gave up is the other shape, and it is a notice.
    rows.push(TranscriptRow::Notice {
        level: "error".to_string(),
        text: "connection reset".to_string(),
    });
    assert_eq!(last_failure(&rows).as_deref(), Some("connection reset"));

    let healthy = vec![TranscriptRow::Assistant {
        stop_reason: Some("stop".to_string()),
        error_message: None,
        text: "pong".to_string(),
    }];
    assert_eq!(last_failure(&healthy), None);
}

#[test]
fn a_pending_switch_refuses_a_second_switch_and_new_turns_until_it_ends() {
    let mut gate = ModeSwitchGate::new();
    assert!(!gate.is_pending());
    assert_eq!(gate.ensure_turn_admitted(), Ok(()));

    let guard = gate.begin().expect("the first switch begins");
    assert!(gate.is_pending());
    assert_eq!(
        gate.ensure_turn_admitted(),
        Err("the approval mode will change after the current turn finishes".to_string())
    );
    match gate.begin() {
        Err(message) => assert_eq!(message, "an approval mode switch is already pending"),
        Ok(_) => panic!("a second switch began while one was pending"),
    }
    assert!(gate.is_pending());

    gate.release(guard);
    assert!(!gate.is_pending());
    assert_eq!(gate.ensure_turn_admitted(), Ok(()));
    assert!(gate.begin().is_ok());
}

#[test]
fn a_switch_proceeds_only_after_two_idle_readings_in_a_row() {
    let mut watch = SettleWatch::new();
    assert!(!watch.observe(true));
    assert!(!watch.observe(false));
    assert!(!watch.observe(true));
    assert!(watch.observe(true));
    assert!(watch.observe(true));
    assert!(!watch.observe(false));
    assert!(!watch.observe(true));
}

#[test]
fn only_the_hosts_own_naming_receipt_is_kept_out_of_the_conversation() {
    let mut titles = TitleGeneration::new();
    assert!(!titles.swallows("Session renamed to Fix the build"), "a /rename the user typed shows its receipt");

    assert!(!titles.start(false), "a named session is not renamed");
    assert!(titles.start(true));
    assert!(titles.in_flight());
    assert!(!titles.start(true), "one naming at a time");

    assert!(!titles.swallows("Compacted the session"), "other output is not a receipt");
    assert!(titles.swallows("Session renamed to Fix the build"));
    assert!(!titles.in_flight());
    assert!(!titles.swallows("Session renamed to Again"), "a receipt is swallowed once");

    assert!(titles.start(true));
    titles.failed();
    assert!(!titles.in_flight());
    assert!(!titles.swallows("Could not generate a session title."));
}

#[test]
fn a_dialog_the_host_could_not_read_is_named_with_its_kind_and_id() {
    assert_eq!(
        unusable_dialog_message("select", Some("\"req-7\"".to_string())),
        "the engine is waiting on a `select` dialog the host could not read (id: \"req-7\")"
    );
    assert_eq!(
        unusable_dialog_message("confirm", None),
        "the engine is waiting on a `confirm` dialog the host could not read (id: none)"
    );
}
