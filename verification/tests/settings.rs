use omp_desktop::session::ControlFlags;
use omp_desktop::settings::{
    backup_needed, global_config_candidates, global_config_file, hatch_scope, live_note, live_setter, mid_turn,
    no_workspace, project_config_file, project_thread, HatchScope, LiveSetter,
};

#[test]
fn the_compatibility_name_wins_when_it_is_the_file_in_use() {
    let agent_dir = "/home/me/.omp/agent";
    assert_eq!(
        global_config_file(agent_dir, false, false),
        "/home/me/.omp/agent/config.yml",
        "a fresh install has neither, and the canonical name is what a write creates"
    );
    assert_eq!(
        global_config_file(agent_dir, false, true),
        "/home/me/.omp/agent/config.yaml",
        "a file the engine reads is the file to edit"
    );
    assert_eq!(
        global_config_file(agent_dir, true, true),
        "/home/me/.omp/agent/config.yml",
        "the canonical name wins once it exists"
    );
    assert_eq!(
        global_config_candidates(agent_dir),
        ("/home/me/.omp/agent/config.yml".to_string(), "/home/me/.omp/agent/config.yaml".to_string())
    );
}

#[test]
fn the_project_layer_is_one_file_in_the_workspace() {
    assert_eq!(project_config_file("/work/app"), "/work/app/.omp/config.yml");
    assert_eq!(project_config_file("/work/app/"), "/work/app/.omp/config.yml");
}

#[test]
fn a_running_turn_or_an_unreadable_state_is_never_restarted() {
    let idle = ControlFlags {
        is_streaming: false,
        is_compacting: false,
        queued_message_count: 0,
    };
    assert_eq!(mid_turn(Some(idle)), None);
    assert_eq!(
        mid_turn(Some(ControlFlags { is_streaming: true, ..idle })).as_deref(),
        Some("a turn is in flight")
    );
    assert_eq!(
        mid_turn(Some(ControlFlags { is_compacting: true, ..idle })).as_deref(),
        Some("a compaction is running")
    );
    assert!(mid_turn(None).unwrap().contains("not safe to stop"));
}

#[test]
fn the_hatch_edits_global_or_project_and_nothing_else() {
    assert_eq!(hatch_scope(None), Ok(HatchScope::Global));
    assert_eq!(hatch_scope(Some("global")), Ok(HatchScope::Global));
    assert_eq!(hatch_scope(Some("project")), Ok(HatchScope::Project));
    let refused = hatch_scope(Some("system")).unwrap_err();
    assert!(refused.starts_with("`system` is not a config scope"), "{refused}");

    assert_eq!(project_thread(Some("t1")), Ok("t1"));
    assert!(project_thread(None).unwrap_err().contains("no session is open"));
    assert!(no_workspace("t1").contains("`t1`"));
}

#[test]
fn only_six_keys_have_a_live_setter() {
    assert_eq!(live_setter("defaultThinkingLevel"), Ok(LiveSetter::ThinkingLevel));
    assert_eq!(live_setter("compaction.enabled"), Ok(LiveSetter::AutoCompaction));
    assert_eq!(live_setter("steeringMode"), Ok(LiveSetter::SteeringMode));
    assert_eq!(live_setter("followUpMode"), Ok(LiveSetter::FollowUpMode));
    assert_eq!(live_setter("interruptMode"), Ok(LiveSetter::InterruptMode));
    assert_eq!(live_setter("retry.enabled"), Ok(LiveSetter::AutoRetry));
    assert_eq!(
        live_setter("theme"),
        Err("this build has no live setter for `theme`".to_string())
    );
}

#[test]
fn a_live_write_says_which_sessions_did_not_take_it() {
    assert!(live_note(false, &Vec::new()).contains("keeps the one it has"));
    assert_eq!(live_note(true, &Vec::new()), "");
    assert_eq!(
        live_note(true, &vec!["t1: gone".to_string(), "t2: busy".to_string()]),
        " Not every live session took it: t1: gone; t2: busy."
    );
}

#[test]
fn a_backup_is_not_taken_twice_for_the_same_content() {
    let first = b"steeringMode: all\n";
    assert!(backup_needed(first, None), "the first copy");
    assert!(!backup_needed(first, Some(first)), "an unchanged file is already backed up");
    let edited = b"steeringMode: one-at-a-time\n";
    assert!(backup_needed(edited, Some(first)), "content the newest copy does not hold is worth keeping");
    assert!(backup_needed(b"", Some(b"x")));
}
