use omp_desktop::policy::{
    is_name_character, merge_record, stderr_tail, validate_mode, validate_tool_name, PolicyRecord,
    RecordValue, ALLOW, APPROVAL_MODES, MAX_TOOL_NAME_CHARS,
};

/// A record of tool to policy, the shape `tools.approval` has on the wire.
fn record(entries: &[(&str, &str)]) -> PolicyRecord {
    let mut record = PolicyRecord::new();
    for (tool, policy) in entries {
        record.insert(tool.to_string(), RecordValue::Policy(policy.to_string()));
    }
    record
}

fn allow() -> RecordValue {
    RecordValue::Policy("allow".into())
}

#[test]
fn only_the_engines_three_modes_are_accepted() {
    for mode in APPROVAL_MODES {
        assert!(validate_mode(mode).is_ok(), "{mode} must be accepted");
    }
    for mode in ["", "auto", "default", "YOLO", "write ", "always_ask"] {
        assert!(
            validate_mode(mode).is_err(),
            "{mode:?} must be refused with a message naming the ladder"
        );
    }
    let error = validate_mode("plan").expect_err("refused");
    assert!(error.contains("always-ask"), "the message lists the modes");
}

#[test]
fn a_name_that_can_be_a_config_key_passes() {
    for name in ["bash", "write", "mcp__server.read", "web:fetch", "my-tool", "a.b.c"] {
        assert!(validate_tool_name(name).is_ok(), "{name:?} must be accepted");
    }
}

#[test]
fn a_name_carrying_a_character_outside_the_key_alphabet_is_refused() {
    for name in [" ", "read\n", "a\tb", "read/write", "read\"", "it's", "read\\write", "é"] {
        let error = validate_tool_name(name).expect_err(&format!("{name:?} must be refused"));
        assert!(
            error.contains("letters, digits"),
            "a refusal should say what is allowed, got {error:?} for {name:?}"
        );
    }

    let error = validate_tool_name("read\n").expect_err("must refuse");
    assert!(error.contains(r"'\n'"), "got {error}");
    let error = validate_tool_name("read/write").expect_err("must refuse");
    assert!(error.contains("'/'"), "got {error}");
}

#[test]
fn an_empty_name_is_refused_before_anything_else() {
    let error = validate_tool_name("").expect_err("must refuse");
    assert!(error.contains("empty"), "got {error}");
}

#[test]
fn a_name_longer_than_the_limit_is_refused() {
    let at_the_limit = "a".repeat(MAX_TOOL_NAME_CHARS);
    assert!(validate_tool_name(&at_the_limit).is_ok(), "the limit itself is usable");

    let past_it = "a".repeat(MAX_TOOL_NAME_CHARS + 1);
    let error = validate_tool_name(&past_it).expect_err("must refuse");
    assert!(error.contains("too long"), "got {error}");
    assert!(error.contains(&(MAX_TOOL_NAME_CHARS + 1).to_string()), "got {error}");
}

#[test]
fn a_first_policy_lands_in_an_empty_record() {
    let (merged, previous) = merge_record(&record(&[]), "bash", ALLOW);

    assert_eq!(previous, None, "nothing was recorded for bash before");
    assert_eq!(merged.get("bash"), Some(&allow()));
    assert_eq!(merged.len(), 1);
}

#[test]
fn another_tools_policy_survives_the_merge() {
    let (merged, _) = merge_record(&record(&[("write", "deny")]), "bash", ALLOW);

    assert_eq!(
        merged.get("write"),
        Some(&RecordValue::Policy("deny".into())),
        "another tool's policy must come back out of the merge"
    );
    assert_eq!(merged.get("bash"), Some(&allow()));
    assert_eq!(merged.len(), 2);
}

#[test]
fn overwriting_a_policy_reports_the_one_it_replaced() {
    for before in ["deny", "prompt"] {
        let (merged, previous) = merge_record(&record(&[("bash", before)]), "bash", ALLOW);

        assert_eq!(previous.as_deref(), Some(before), "the dialog shows what the write took away");
        assert_eq!(merged.get("bash"), Some(&allow()));
    }
}

#[test]
fn rewriting_an_already_allowed_tool_reports_what_was_there() {
    let (merged, previous) = merge_record(&record(&[("bash", "allow")]), "bash", ALLOW);

    assert_eq!(
        previous.as_deref(),
        Some("allow"),
        "`allow` is what was recorded, and saying so keeps the UI honest"
    );
    assert_eq!(merged.get("bash"), Some(&allow()));
}

#[test]
fn a_value_that_is_not_a_policy_is_replaced_without_being_reported() {
    let mut odd = PolicyRecord::new();
    odd.insert("bash".to_string(), RecordValue::Other("{\"nested\":true}".to_string()));

    let (merged, previous) = merge_record(&odd, "bash", ALLOW);

    assert_eq!(previous, None, "a string it never was must not be reported");
    assert_eq!(merged.get("bash"), Some(&allow()));
}

#[test]
fn the_merge_leaves_the_record_it_was_given_alone() {
    let original = record(&[("bash", "deny")]);
    let _ = merge_record(&original, "bash", ALLOW);
    assert_eq!(original.get("bash"), Some(&RecordValue::Policy("deny".into())));
}

#[test]
fn the_key_alphabet_is_letters_digits_and_four_marks() {
    for c in ['a', 'Z', '0', '.', '_', ':', '-'] {
        assert!(is_name_character(c), "{c:?}");
    }
    for c in [' ', '/', '\\', '"', '\'', 'é', '\n'] {
        assert!(!is_name_character(c), "{c:?}");
    }
}

#[test]
fn the_tail_of_the_engines_stderr_is_its_last_lines() {
    assert_eq!(stderr_tail(b""), "it printed no error output");
    assert_eq!(stderr_tail(b"\n  \n"), "it printed no error output");
    assert_eq!(stderr_tail(b"one\n\ntwo\n"), "one / two");
    assert_eq!(stderr_tail(b"1\n2\n3\n4\n5\n6\n"), "3 / 4 / 5 / 6");
    assert_eq!(stderr_tail(b"bad \xff byte"), "bad \u{fffd} byte");
}
