use omp_desktop::dto::ThreadSnapshot;
use omp_desktop::threads::{sorted_rows, Closed, Suspensions, REMEMBERED};

#[test]
fn a_closed_thread_is_remembered_and_the_oldest_is_forgotten() {
    let mut closed: Closed<u32> = Closed::new();
    for n in 0..REMEMBERED as u32 {
        closed.remember(format!("t{n}"), n);
    }
    assert_eq!(closed.ids().len(), REMEMBERED);
    assert_eq!(closed.get("t0"), Some(&0));

    closed.remember("late".to_string(), 999);
    let ids = closed.ids();
    assert_eq!(ids.len(), REMEMBERED, "the cache stays bounded");
    assert_eq!(ids[0], "t1", "the oldest went first");
    assert_eq!(ids[REMEMBERED - 1], "late");
    assert_eq!(closed.get("t0"), None);
    assert_eq!(closed.get("late"), Some(&999));
}

#[test]
fn remembering_a_known_thread_again_keeps_its_place_and_takes_the_new_value() {
    let mut closed: Closed<&str> = Closed::new();
    closed.remember("a".to_string(), "first");
    closed.remember("b".to_string(), "second");
    closed.remember("a".to_string(), "again");
    assert_eq!(closed.ids(), ["a", "b"]);
    assert_eq!(closed.get("a"), Some(&"again"));
    assert_eq!(closed.get("c"), None);
}

#[test]
fn a_released_thread_is_marked_until_it_is_cleared() {
    let mut suspended = Suspensions::new();
    assert!(!suspended.is_suspended("t1"));
    suspended.suspend("t1");
    suspended.suspend("t1");
    suspended.suspend("t2");
    assert!(suspended.is_suspended("t1"));
    suspended.clear("t1");
    assert!(!suspended.is_suspended("t1"), "one clear undoes any number of marks");
    assert!(suspended.is_suspended("t2"));
    suspended.clear("t9");
    assert!(suspended.is_suspended("t2"));
}

fn snapshot(id: &str) -> ThreadSnapshot {
    ThreadSnapshot {
        id: id.to_string(),
        workspace: "/work".to_string(),
        title: None,
        streaming: false,
        pending_approvals: 0,
        error: None,
    }
}

#[test]
fn live_rows_are_sorted_by_id() {
    let rows = sorted_rows(vec![snapshot("c"), snapshot("a"), snapshot("b")]);
    let ids: Vec<&str> = rows.iter().map(|r| r.id.as_str()).collect();
    assert_eq!(ids, ["a", "b", "c"]);
}
