use task_tracker::Priority;
use task_tracker::StoreError;
use task_tracker::Task;
use task_tracker::TaskStore;
use task_tracker::Timestamp;

fn ts(year: i64, month: u32, day: u32, hour: u32, minute: u32, second: u32) -> Timestamp {
    Timestamp::new(year, month, day, hour, minute, second)
}

fn task(name: &str, description: &str, priority: Priority) -> Task {
    Task::new(
        name.to_owned(),
        description.to_owned(),
        priority,
        ts(2024, 1, 2, 3, 4, 5),
    )
}

#[test]
fn serialize_one_task_gives_exact_document() {
    let mut store = TaskStore::new();
    store.add(task("A", "B", Priority::Low));
    let doc = store.save_to_document(false).unwrap();
    assert_eq!(
        doc,
        "[{\"name\":\"A\",\"description\":\"B\",\"priority\":\"Low\",\
         \"date_created\":\"2024-01-02T03:04:05\",\"date_updated\":null}]"
    );
}

#[test]
fn serialize_empty_store_gives_empty_array() {
    let store = TaskStore::new();
    let doc = store.save_to_document(false).unwrap();
    assert_eq!(doc, "[]");
}

#[test]
fn round_trip_preserves_all_fields_and_order() {
    let mut store = TaskStore::new();
    store.add(task("plain", "text", Priority::Low));
    store.add(task("quo\"te", "back\\slash and \"both\"", Priority::Medium));
    let mut edited = task("third", "line\nbreak, comma, {}[]:", Priority::High);
    edited.date_updated = Some(ts(2025, 11, 30, 22, 59, 0));
    store.add(edited);
    let doc = store.save_to_document(false).unwrap();

    let mut other = TaskStore::new();
    other.add(task("stale", "gone after load", Priority::Low));
    let r = other.load_from_document(Some(&doc));
    assert_eq!(r, Ok("Data read successfully".to_owned()));
    assert_eq!(other.enumerate(), store.enumerate());
}

#[test]
fn round_trip_of_empty_document() {
    let store = TaskStore::new();
    let doc = store.save_to_document(false).unwrap();
    let mut other = TaskStore::new();
    other.add(task("stale", "gone after load", Priority::Low));
    let r = other.load_from_document(Some(&doc));
    assert!(r.is_ok());
    assert_eq!(other.len(), 0);
}

#[test]
fn save_to_occupied_path_fails_file_already_exists() {
    let mut store = TaskStore::new();
    store.add(task("a", "b", Priority::Low));
    let r = store.save_to_document(true);
    assert_eq!(r, Err(StoreError::FileAlreadyExists));
}

#[test]
fn load_from_missing_path_fails_file_not_found_and_keeps_store() {
    let mut store = TaskStore::new();
    store.add(task("kept", "still here", Priority::High));
    let before = store.enumerate().clone();
    let r = store.load_from_document(None);
    assert_eq!(r, Err(StoreError::FileNotFound));
    assert_eq!(store.enumerate(), &before);
}

#[test]
fn load_of_malformed_document_fails_parse_failure_and_keeps_store() {
    let mut store = TaskStore::new();
    store.add(task("kept", "still here", Priority::High));
    let before = store.enumerate().clone();
    for bad in [
        "",
        "not json",
        "[",
        "[]x",
        "[{\"name\":\"A\"}]",
        "[{\"name\":\"A\",\"description\":\"B\",\"priority\":\"Urgent\",\
         \"date_created\":\"2024-01-02T03:04:05\",\"date_updated\":null}]",
        "[{\"name\":\"A\",\"description\":\"B\",\"priority\":\"Low\",\
         \"date_created\":\"2024-99-02T03:04:05\",\"date_updated\":null}]",
        "[{\"name\":\"A\",\"description\":\"B\",\"priority\":\"Low\",\
         \"date_created\":\"2024-01-02T03:04:05\",\"date_updated\":null}",
    ] {
        let r = store.load_from_document(Some(&bad.to_owned()));
        assert_eq!(r, Err(StoreError::ParseFailure), "input: {bad}");
        assert_eq!(store.enumerate(), &before);
    }
}

#[test]
fn parse_document_reads_back_written_fields() {
    let doc = "[{\"name\":\"A\",\"description\":\"B\",\"priority\":\"Medium\",\
         \"date_created\":\"2024-01-02T03:04:05\",\"date_updated\":\"2025-06-07T08:09:10\"}]"
        .to_owned();
    let tasks = task_tracker::parse_document(&doc).unwrap();
    assert_eq!(tasks.len(), 1);
    assert_eq!(tasks[0].name, "A");
    assert_eq!(tasks[0].description, "B");
    assert_eq!(tasks[0].priority, Priority::Medium);
    assert_eq!(tasks[0].date_created, ts(2024, 1, 2, 3, 4, 5));
    assert_eq!(tasks[0].date_updated, Some(ts(2025, 6, 7, 8, 9, 10)));
}
