use omp_desktop::bridge::{project_groups, project_name, session_catalogue, StoredSession};

fn strings(list: &[&str]) -> Vec<String> {
    list.iter().map(|s| s.to_string()).collect()
}

fn stored(id: &str, cwd: &str) -> StoredSession {
    StoredSession {
        id: id.to_string(),
        path: format!("/store/{id}.jsonl"),
        bucket: "b".to_string(),
        cwd: cwd.to_string(),
        title: Some(format!("title of {id}")),
        title_source: None,
        parent_id: None,
        created_at: Some("2026-09-20T16:52:31.559Z".to_string()),
        modified_at: 1_700_000_000_000,
        message_count: 3,
        size: 1288,
        first_message: "hello".to_string(),
        status: "idle".to_string(),
    }
}

#[test]
fn a_project_is_named_after_its_last_segment() {
    assert_eq!(project_name("/work/omp-app"), "omp-app");
    assert_eq!(project_name("/work/omp-app/"), "omp-app");
    assert_eq!(project_name("/"), "/");
}

#[test]
fn projects_group_by_directory_in_the_order_they_first_appear() {
    let cwds = strings(&["/work/b", "/work/a", "", "/work/b", "/work/a", "/work/b"]);
    let hidden = strings(&["/work/a"]);
    let groups = project_groups(&cwds, &hidden);

    assert_eq!(groups.len(), 2, "one group per directory, an empty one left out");
    assert_eq!(groups[0].path, "/work/b");
    assert_eq!(groups[0].name, "b");
    assert_eq!(groups[0].session_count, 3);
    assert!(!groups[0].hidden);
    assert_eq!(groups[1].path, "/work/a");
    assert_eq!(groups[1].session_count, 2);
    assert!(groups[1].hidden);
}

#[test]
fn the_catalogue_marks_pinned_and_released_sessions() {
    let rows = session_catalogue(
        vec![stored("01alpha", "/work/a"), stored("01beta", "/work/b")],
        &strings(&["01beta"]),
        &strings(&["01alpha"]),
    );
    assert_eq!(rows.len(), 2);
    assert_eq!(rows[0].id, "01alpha");
    assert!(!rows[0].pinned);
    assert!(rows[0].suspended, "a released thread is drawn as released, not as live");
    assert_eq!(rows[1].id, "01beta");
    assert!(rows[1].pinned);
    assert!(!rows[1].suspended);
    assert_eq!(rows[1].cwd, "/work/b");
    assert_eq!(rows[1].title.as_deref(), Some("title of 01beta"));
    assert_eq!(rows[1].size, 1288);
}

#[test]
fn an_empty_store_is_an_empty_catalogue() {
    assert!(session_catalogue(Vec::new(), &Vec::new(), &Vec::new()).is_empty());
    assert!(project_groups(&Vec::new(), &Vec::new()).is_empty());
}
