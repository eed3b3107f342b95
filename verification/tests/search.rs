use std::cell::RefCell;

use omp_desktop::dto::IndexStatus;
use omp_desktop::search::{
    count_of, effective_limit, index_files, match_expression, missing, ordinal_of, split_whitespace,
    unchanged, Index, NullSink, ProgressSink, DEFAULT_LIMIT, INDEX_FILE, MAX_LIMIT, PROGRESS_INTERVAL_MS,
};

#[derive(Default)]
struct Recorder {
    seen: RefCell<Vec<IndexStatus>>,
}

impl ProgressSink for Recorder {
    fn progress(&self, status: &IndexStatus) {
        self.seen.borrow_mut().push(status.clone());
    }
}

#[test]
fn a_query_a_person_would_type_is_a_search_and_not_an_error() {
    for query in [
        "AND",
        "c++",
        "a - b",
        "foo:bar",
        "\"",
        "()",
        "NEAR(",
        "*",
        "^naive",
        "naive AND rust",
        "--",
        "naïve",
    ] {
        let expression = match_expression(query).expect("a query with something in it");
        assert!(expression.starts_with('"') && expression.ends_with("\"*"), "{query:?}: {expression}");
    }

    assert_eq!(match_expression("AND").as_deref(), Some("\"AND\"*"));
    assert_eq!(
        match_expression("naive AND rust").as_deref(),
        Some("\"naive\" AND \"AND\" AND \"rust\"*")
    );
    assert_eq!(match_expression("\"").as_deref(), Some("\"\"\"\"*"));
    assert_eq!(match_expression("a - b").as_deref(), Some("\"a\" AND \"-\" AND \"b\"*"));

    assert!(match_expression("   ").is_none());
    assert!(match_expression("").is_none());
}

#[test]
fn words_are_split_at_any_whitespace() {
    assert_eq!(split_whitespace("  one\ttwo\n three  "), ["one", "two", "three"]);
    assert!(split_whitespace(" \n\t").is_empty());
}

#[test]
fn the_limit_is_defaulted_and_clamped() {
    assert_eq!(effective_limit(None), DEFAULT_LIMIT);
    assert_eq!(effective_limit(Some(0)), 1);
    assert_eq!(effective_limit(Some(10)), 10);
    assert_eq!(effective_limit(Some(MAX_LIMIT + 1)), MAX_LIMIT);
}

#[test]
fn a_session_that_is_gone_loses_its_rows() {
    let indexed = vec!["01alpha".to_string(), "01beta".to_string(), "01gamma".to_string()];
    let present = vec!["01gamma".to_string(), "01alpha".to_string()];
    assert_eq!(missing(&indexed, &present), ["01beta"]);
    assert!(missing(&indexed, &indexed).is_empty());
}

#[test]
fn a_second_pass_over_unchanged_files_writes_nothing() {
    assert!(unchanged(Some((1_700_000_000_000, 1288)), 1_700_000_000_000, 1288));
    assert!(!unchanged(Some((1_700_000_000_000, 1288)), 1_700_000_000_001, 1288));
    assert!(!unchanged(Some((1_700_000_000_000, 1288)), 1_700_000_000_000, 1289));
    assert!(!unchanged(None, 0, 0));
}

#[test]
fn the_index_lives_in_three_files() {
    assert_eq!(
        index_files("/c/search-index.db"),
        ["/c/search-index.db", "/c/search-index.db-wal", "/c/search-index.db-shm"]
    );
    let index = Index::new(Some("/c".to_string()));
    assert_eq!(index.path(), Some(format!("/c/{INDEX_FILE}")));
    assert_eq!(Index::new(None).path(), None);
}

#[test]
fn database_numbers_are_clamped_into_the_status() {
    assert_eq!(count_of(-3), 0);
    assert_eq!(count_of(12), 12);
    assert_eq!(count_of(i64::MAX), u32::MAX);
    assert_eq!(ordinal_of(-1), 0);
    assert_eq!(ordinal_of(34), 34);
}

#[test]
fn a_pass_announces_itself_when_it_starts_and_when_it_ends() {
    let sink = Recorder::default();
    let mut index = Index::new(Some("/c".to_string()));
    let tell = |status: Option<IndexStatus>| {
        if let Some(status) = status {
            sink.progress(&status);
        }
    };

    let started = index.begin(1_000, 0);
    assert!(started.is_some(), "the first caller starts a pass");
    tell(started);
    let doubled = index.begin(1_001, 0);
    assert!(doubled.is_none(), "a pass in flight is not doubled up");
    tell(doubled);
    index.set_total(2);

    let early = index.announce(1_000 + PROGRESS_INTERVAL_MS - 1, false, 1);
    assert!(early.is_none(), "rate limited");
    tell(early);
    let tick = index.announce(1_000 + PROGRESS_INTERVAL_MS, false, 1);
    assert!(tick.is_some());
    tell(tick);

    tell(Some(index.settle_at(None, 1_700_000_000_000, 2_000, 2)));
    let seen = sink.seen.borrow();
    assert_eq!(seen.len(), 3, "a start, a progress tick and an end");
    assert!(seen[0].running, "a start");
    assert_eq!(seen[0].error, None);
    assert!(!seen[2].running, "an end");
    assert_eq!(seen[2].completed_at, Some(1_700_000_000_000));
    assert_eq!((seen[2].indexed, seen[2].total), (2, 2));
}

#[test]
fn a_pass_that_failed_carries_its_reason_and_a_later_one_clears_it() {
    let sink = NullSink;
    let mut index = Index::new(Some("/c".to_string()));

    index.begin(1, 0);
    sink.progress(&index.settle_at(None, 100, 2, 0));
    assert_eq!(index.status(0).error, None, "a pass that reached the end has nothing to report");

    index.begin(3, 0);
    let ended = index.settle_at(Some("disk full".to_string()), 200, 4, 0);
    assert_eq!(ended.error.as_deref(), Some("disk full"));
    assert!(!ended.running);
    let status = index.status(0);
    assert_eq!(status.error.as_deref(), Some("disk full"));
    assert!(!status.running, "and does not leave the pass claiming to run");
    assert_eq!(status.completed_at, Some(100), "the last complete index is the honest answer");

    index.begin(5, 0);
    assert_eq!(index.status(0).error, None);
    let ended = index.settle(None, 6, 0);
    assert!(!ended.running);
    assert!(index.status(0).completed_at.is_some());

    assert_eq!(
        Index::new(None).database(),
        Err("the app has no config directory, so it has nowhere to keep a search index".to_string()),
        "a scan with nowhere to keep the index is refused"
    );
    assert_eq!(index.database(), Ok(format!("/c/{INDEX_FILE}")));
}

#[test]
fn an_index_with_nowhere_to_live_answers_with_nothing() {
    let index = Index::new(None);
    assert_eq!(index.path(), None, "no file means no database to query, forget from or scan into");
    let status = index.status(0);
    assert_eq!((status.indexed, status.total, status.running, status.completed_at), (0, 0, false, None));
}
