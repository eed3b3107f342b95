use omp_desktop::dto::RowSnapshot;
use omp_desktop::pump::{patch_from, EventClass, PumpState};

fn row(text: &str) -> RowSnapshot {
    RowSnapshot {
        role: "assistant".to_string(),
        text: text.to_string(),
        thinking: None,
        streaming: false,
        tool: None,
        attachments: Vec::new(),
        custom_type: None,
        jobs: Vec::new(),
    }
}

#[test]
fn events_are_counted_by_kind_and_class() {
    let mut pump = PumpState::new(false);
    let first = pump.event("agent_start", EventClass::Known, None);
    assert_eq!(first.sequence, 1);
    assert_eq!(first.kind, "agent_start");
    pump.event("message_update", EventClass::Known, Some(4));
    pump.event("message_update", EventClass::Known, Some(2));
    pump.event("mystery", EventClass::Unknown, None);
    pump.event("garbled", EventClass::Malformed, None);
    pump.lagged();
    pump.frame(true, true);
    pump.frame(true, false);
    pump.frame(false, false);

    let counters = pump.counters.snapshot();
    assert_eq!(counters.events_seen, 5);
    assert_eq!(counters.event_kinds, 4, "a repeated kind is counted once");
    assert_eq!(counters.unknown_events, 1);
    assert_eq!(counters.malformed_events, 1);
    assert_eq!(counters.lagged_events, 1);
    assert_eq!(counters.frames_seen, 3);
    assert_eq!(counters.ui_requests, 2);
    assert_eq!(counters.blocking_ui_requests, 1);
}

#[test]
fn one_patch_per_tick_starts_at_the_earliest_change() {
    let mut pump = PumpState::new(false);
    pump.event("message_update", EventClass::Known, Some(5));
    pump.mark_dirty(3);
    pump.mark_dirty(7);
    assert_eq!(pump.take_dirty(), Some(3));
    assert_eq!(pump.take_dirty(), None, "a published change is forgotten");
}

#[test]
fn a_patch_is_clamped_to_the_transcript() {
    let rows = vec![row("a"), row("b"), row("c")];
    let patch = patch_from(1, rows.clone());
    assert_eq!(patch.from, 1);
    assert_eq!(patch.rows, vec![row("b"), row("c")]);

    let past = patch_from(9, rows);
    assert_eq!(past.from, 3);
    assert!(past.rows.is_empty());
}

#[test]
fn the_roster_is_republished_only_when_the_thread_moved() {
    let mut pump = PumpState::new(false);
    assert!(!pump.roster_due(false, false));
    assert!(pump.roster_due(true, false), "it started streaming");
    assert!(!pump.roster_due(true, false));
    assert!(pump.roster_due(true, true), "rows changed");
    assert!(pump.roster_due(false, false), "it stopped streaming");
}
