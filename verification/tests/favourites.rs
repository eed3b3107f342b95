use omp_desktop::favourites::{split, Favourites, STORE_FILE};

fn keys(list: &[&str]) -> Vec<String> {
    list.iter().map(|k| k.to_string()).collect()
}

/// A store whose file has been consulted, as the host does before the first read.
fn opened(dir: Option<&str>, file: Option<&str>) -> Favourites {
    let mut store = Favourites::new(dir.map(|d| d.to_string()));
    store.load(file);
    store
}

#[test]
fn a_store_with_no_config_directory_lives_for_the_process() {
    let mut store = opened(None, None);
    assert!(store.list().is_empty());

    let stored = store.set(keys(&["anthropic/x"])).expect("the write succeeds");
    assert_eq!(store.list(), stored);
    assert_eq!(store.path(), None);
}

#[test]
fn the_order_is_the_users_and_survives_a_restart() {
    let mut store = opened(Some("/config/omp"), None);
    let stored = store
        .set(keys(&[
            "openrouter/~anthropic/fable-latest",
            "anthropic/x",
            "local/y",
        ]))
        .expect("the keys are well formed");

    assert_eq!(
        stored,
        keys(&["openrouter/~anthropic/fable-latest", "anthropic/x", "local/y"]),
        "a model id may contain a slash; the provider is only the first segment"
    );

    let bytes = Favourites::encode(&stored).expect("the keys encode");
    let file = String::from_utf8(bytes).unwrap();
    assert_eq!(
        file, r#"["openrouter/~anthropic/fable-latest","anthropic/x","local/y"]"#,
        "the store is a plain JSON array of keys"
    );

    let reopened = opened(Some("/config/omp"), Some(&file));
    assert_eq!(reopened.list(), stored);
}

#[test]
fn an_unusable_key_refuses_the_whole_write() {
    let mut store = opened(Some("/config/omp"), None);
    store.set(keys(&["openrouter/x"])).expect("the first write");

    for bad in ["", "openrouter", "/x", "openrouter/", "open router/x"] {
        let refused = store
            .set(keys(&["anthropic/y", bad]))
            .expect_err("a key that is not a provider/id pair is refused");
        assert!(refused.contains(bad), "the message names the key: {refused}");
    }

    assert_eq!(store.list(), keys(&["openrouter/x"]));
}

#[test]
fn a_repeated_key_stores_once_and_the_first_position_wins() {
    let mut store = opened(Some("/config/omp"), None);
    let stored = store
        .set(keys(&["anthropic/x", "openrouter/y", "anthropic/x"]))
        .expect("duplicates are normalised, not refused");
    assert_eq!(stored, keys(&["anthropic/x", "openrouter/y"]));
}

#[test]
fn a_corrupt_or_foreign_file_reads_as_empty_and_can_be_replaced() {
    let mut store = opened(Some("/config/omp"), Some("{\"not\": \"an array\"}"));
    assert!(store.list().is_empty());

    store.set(keys(&["anthropic/x"])).expect("the write succeeds");
    assert_eq!(store.list(), keys(&["anthropic/x"]));
}

#[test]
fn a_key_the_store_would_refuse_never_comes_back_out_of_it() {
    let store = opened(Some("/config/omp"), Some(r#"["anthropic/x","not-a-key"]"#));
    assert_eq!(
        store.list(),
        keys(&["anthropic/x"]),
        "`list` must not be able to return something `set` would reject"
    );
}

#[test]
fn the_file_is_read_once_and_a_write_is_not_undone_by_a_late_read() {
    let mut store = Favourites::new(Some("/config/omp".to_string()));
    assert!(!store.is_loaded());
    store.set(keys(&["anthropic/x"])).unwrap();
    store.load(Some(r#"["local/y"]"#));
    assert!(store.is_loaded());
    assert_eq!(store.list(), keys(&["anthropic/x"]));
}

#[test]
fn the_store_file_lives_in_the_config_directory() {
    let store = Favourites::new(Some("/config/omp".to_string()));
    assert_eq!(store.path(), Some(format!("/config/omp/{STORE_FILE}")));
}

#[test]
fn a_key_splits_at_its_first_slash() {
    assert_eq!(split("openrouter/~anthropic/x"), Some(("openrouter", "~anthropic/x")));
    assert_eq!(split("openrouter/"), None);
    assert_eq!(split("/x"), None);
    assert_eq!(split("open router/x"), None);
    assert_eq!(split("plain"), None);
}

#[test]
fn normalising_refuses_the_first_bad_key() {
    let refused = Favourites::normalise(keys(&["a/b", "bad", "worse"])).unwrap_err();
    assert!(refused.contains("`bad`"), "{refused}");
    assert!(!refused.contains("worse"), "{refused}");
}

#[test]
fn a_write_the_file_did_not_take_leaves_the_list_and_the_file_to_be_read() {
    let mut store = Favourites::new(Some("/config/omp".to_string()));
    let refused = store
        .set_written(keys(&["anthropic/y"]), Err("permission denied".to_string()))
        .expect_err("the write failed");
    assert_eq!(refused, "the favourites were not saved: permission denied");
    assert!(!store.is_loaded(), "a failed write must not hide the file's keys");
    store.load(Some(r#"["anthropic/x"]"#));
    assert_eq!(store.list(), keys(&["anthropic/x"]));

    let stored = store
        .set_written(keys(&["anthropic/y", "anthropic/y"]), Ok(()))
        .expect("the write succeeds");
    assert_eq!(stored, keys(&["anthropic/y"]));
    assert_eq!(store.list(), keys(&["anthropic/y"]));

    let bad = store
        .set_written(keys(&["nokey"]), Ok(()))
        .expect_err("a bad key is refused");
    assert!(bad.contains("nokey"), "{bad}");
    assert_eq!(store.list(), keys(&["anthropic/y"]));
}

#[test]
fn what_a_write_encodes_is_listed_again_after_a_restart() {
    let mut first = Favourites::new(Some("/config/omp".to_string()));
    let stored = first
        .set(keys(&["openrouter/~anthropic/fable-latest", "anthropic/x", "openrouter/~anthropic/fable-latest"]))
        .expect("the write succeeds");
    let bytes = Favourites::encode(&stored).expect("a list of strings always encodes");
    let text = String::from_utf8_lossy(&bytes).into_owned();

    let mut fresh = Favourites::new(Some("/config/omp".to_string()));
    fresh.load(Some(&text));
    assert_eq!(fresh.list(), stored);
}
