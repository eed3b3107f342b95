use omp_desktop::idle::{Config, Fingerprint, IdlePolicy, Sample, DEFAULT_WINDOW_SECS};

/// One sample of a thread with nothing happening in it.
fn quiet(thread: &str) -> Sample {
    Sample {
        thread: thread.to_string(),
        fingerprint: Fingerprint {
            messages: 4,
            queued: 0,
            dialogs: Vec::new(),
            streaming: false,
        },
        focused: false,
    }
}

/// Ten minutes, in milliseconds.
const WINDOW: u64 = 600_000;
/// A second, in milliseconds.
const SECOND: u64 = 1_000;
/// An arbitrary reading of the monotonic clock.
const START: u64 = 5_000_000;

#[test]
fn an_unchanged_fingerprint_past_the_window_is_released() {
    let mut policy = IdlePolicy::default();
    let start = START;

    assert!(policy.review(start, WINDOW, &[quiet("s1")]).is_empty());
    assert!(policy
        .review(start + WINDOW - SECOND, WINDOW, &[quiet("s1")])
        .is_empty());
    assert_eq!(policy.review(start + WINDOW, WINDOW, &[quiet("s1")]), ["s1"]);
}

#[test]
fn a_fresh_session_is_never_released_in_its_first_round() {
    let mut policy = IdlePolicy::default();
    let start = START;

    assert!(policy.review(start, 0, &[quiet("s1")]).is_empty());
    assert_eq!(policy.review(start, 0, &[quiet("s1")]), ["s1"]);

    let mut later = IdlePolicy::default();
    let opened = start + WINDOW * 10;
    assert!(later.review(opened, WINDOW, &[quiet("s1")]).is_empty());
    assert!(later
        .review(opened + WINDOW - SECOND, WINDOW, &[quiet("s1")])
        .is_empty());
    assert_eq!(later.review(opened + WINDOW, WINDOW, &[quiet("s1")]), ["s1"]);
}

#[test]
fn every_guard_holds_the_sidecar() {
    let held = [
        Fingerprint {
            streaming: true,
            ..quiet("s1").fingerprint
        },
        Fingerprint {
            dialogs: vec!["ui_1".to_string()],
            ..quiet("s1").fingerprint
        },
        Fingerprint {
            queued: 1,
            ..quiet("s1").fingerprint
        },
    ];

    for fingerprint in held {
        let mut policy = IdlePolicy::default();
        let start = START;
        let sample = Sample {
            thread: "s1".to_string(),
            fingerprint,
            focused: false,
        };

        policy.review(start, WINDOW, std::slice::from_ref(&sample));
        let released = policy.review(start + WINDOW * 2, WINDOW, std::slice::from_ref(&sample));

        assert!(released.is_empty(), "a guard must hold the sidecar: {released:?}");
    }

    let mut policy = IdlePolicy::default();
    let start = START;
    policy.review(start, WINDOW, &[quiet("s1")]);
    assert!(policy
        .review(
            start + WINDOW * 2,
            WINDOW,
            &[Sample {
                focused: true,
                ..quiet("s1")
            }]
        )
        .is_empty());

    assert_eq!(policy.review(start + WINDOW * 3, WINDOW, &[quiet("s1")]), ["s1"]);
}

#[test]
fn a_changed_fingerprint_restarts_the_clock() {
    let mut policy = IdlePolicy::default();
    let start = START;

    policy.review(start, WINDOW, &[quiet("s1")]);

    let moved = Sample {
        fingerprint: Fingerprint {
            messages: 6,
            ..quiet("s1").fingerprint
        },
        ..quiet("s1")
    };
    let nearly = start + WINDOW - SECOND;
    assert!(policy.review(nearly, WINDOW, std::slice::from_ref(&moved)).is_empty());

    assert!(
        policy
            .review(start + WINDOW, WINDOW, std::slice::from_ref(&moved))
            .is_empty(),
        "the old clock would have elapsed here; the message restarted it"
    );
    assert!(policy
        .review(nearly + WINDOW - SECOND, WINDOW, std::slice::from_ref(&moved))
        .is_empty());
    assert_eq!(
        policy.review(nearly + WINDOW, WINDOW, &[moved]),
        ["s1"],
        "and it elapses from the sample that moved"
    );
}

#[test]
fn a_thread_that_is_gone_stops_being_clocked() {
    let mut policy = IdlePolicy::default();
    let start = START;

    policy.review(start, WINDOW, &[quiet("s1"), quiet("s2")]);
    assert_eq!(
        policy.review(start + WINDOW, WINDOW, &[quiet("s2")]),
        ["s2"],
        "the one that stayed is the one that elapses"
    );
    assert_eq!(
        policy.review(start + WINDOW * 2, WINDOW, &[quiet("s1")]),
        Vec::<String>::new(),
        "s1 is new again, so its clock starts now"
    );
}

#[test]
fn a_clock_that_reads_earlier_does_not_release() {
    let mut policy = IdlePolicy::new();
    policy.review(START, WINDOW, &[quiet("s1")]);
    assert!(policy.review(START - WINDOW * 2, WINDOW, &[quiet("s1")]).is_empty());
}

#[test]
fn fingerprints_compare_by_every_field() {
    let a = quiet("s1").fingerprint;
    assert!(a.same_as(&a.duplicate()));
    assert!(!a.same_as(&Fingerprint { messages: 5, ..a.clone() }));
    assert!(!a.same_as(&Fingerprint { dialogs: vec!["ui_9".to_string()], ..a.clone() }));
    assert!(a.releasable());
    assert!(!Fingerprint { streaming: true, ..a.clone() }.releasable());
}

#[test]
fn the_window_setting_is_read_as_seconds_or_falls_back() {
    let default = Config::from_setting(None);
    assert_eq!(default.window, DEFAULT_WINDOW_SECS);
    assert_eq!(Config::from_setting(Some("30")).window, 30);
    assert_eq!(Config::from_setting(Some(" 45 ")).window, 45);
    assert_eq!(Config::from_setting(Some("soon")).window, DEFAULT_WINDOW_SECS);
    assert_eq!(Config::from_setting(Some("0")).window, DEFAULT_WINDOW_SECS);
}
