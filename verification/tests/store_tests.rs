use task_tracker::Priority;
use task_tracker::StoreError;
use task_tracker::Task;
use task_tracker::TaskStore;
use task_tracker::Timestamp;

fn ts(year: i64, month: u32, day: u32, hour: u32, minute: u32, second: u32) -> Timestamp {
    Timestamp::new(year, month, day, hour, minute, second)
}

fn task(name: &str, description: &str, priority: Priority) -> Task {
    Task::new(
        name.to_owned(),
        description.to_owned(),
        priority,
        ts(2024, 1, 2, 3, 4, 5),
    )
}

#[test]
fn find_index_returns_insertion_positions() {
    let mut store = TaskStore::new();
    store.add(task("a", "first", Priority::Low));
    store.add(task("b", "second", Priority::Medium));
    store.add(task("c", "third", Priority::High));
    assert_eq!(store.find_index("a"), Some(0));
    assert_eq!(store.find_index("b"), Some(1));
    assert_eq!(store.find_index("c"), Some(2));
    assert_eq!(store.find_index("d"), None);
}

#[test]
fn enumerate_keeps_insertion_order() {
    let mut store = TaskStore::new();
    store.add(task("a", "first", Priority::Low));
    store.add(task("b", "second", Priority::Medium));
    store.add(task("c", "third", Priority::High));
    let names: Vec<&str> = store.enumerate().iter().map(|t| t.name.as_str()).collect();
    assert_eq!(names, vec!["a", "b", "c"]);
}

#[test]
fn find_index_matches_first_of_equal_names() {
    let mut store = TaskStore::new();
    store.add(task("dup", "first", Priority::Low));
    store.add(task("dup", "second", Priority::High));
    assert_eq!(store.find_index("dup"), Some(0));
}

#[test]
fn remove_absent_name_fails_not_found() {
    let mut store = TaskStore::new();
    store.add(task("a", "first", Priority::Low));
    let r = store.remove("missing");
    assert_eq!(r, Err(StoreError::NotFound));
    assert_eq!(store.len(), 1);
}

#[test]
fn remove_present_name_removes_exactly_one_and_keeps_order() {
    let mut store = TaskStore::new();
    store.add(task("a", "first", Priority::Low));
    store.add(task("b", "second", Priority::Medium));
    store.add(task("c", "third", Priority::High));
    let r = store.remove("b");
    assert_eq!(r, Ok("Task \"b\" removed".to_owned()));
    let names: Vec<&str> = store.enumerate().iter().map(|t| t.name.as_str()).collect();
    assert_eq!(names, vec!["a", "c"]);
}

#[test]
fn edit_present_keeps_date_created_and_sets_date_updated() {
    let mut store = TaskStore::new();
    store.add(task("a", "first", Priority::Low));
    let created = store.enumerate()[0].date_created;
    let when = ts(2025, 6, 7, 8, 9, 10);
    let r = store.edit("a", "a2".to_owned(), "new text".to_owned(), Priority::High, when);
    assert_eq!(
        r,
        Ok("Task \"a\" successfully updated at 07-06-2025 08:09:10".to_owned())
    );
    let t = &store.enumerate()[0];
    assert_eq!(t.name, "a2");
    assert_eq!(t.description, "new text");
    assert_eq!(t.priority, Priority::High);
    assert_eq!(t.date_created, created);
    assert_eq!(t.date_updated, Some(when));
}

#[test]
fn edit_absent_fails_not_found_and_changes_nothing() {
    let mut store = TaskStore::new();
    store.add(task("a", "first", Priority::Low));
    let before = store.enumerate().clone();
    let r = store.edit(
        "missing",
        "x".to_owned(),
        "y".to_owned(),
        Priority::Medium,
        ts(2025, 6, 7, 8, 9, 10),
    );
    assert_eq!(r, Err(StoreError::NotFound));
    assert_eq!(store.enumerate(), &before);
}

#[test]
fn example_scenario_runs_through() {
    let mut store = TaskStore::new();
    store.add(task("Buy milk", "2% milk", Priority::Low));
    store.add(task("Fix bug", "null pointer", Priority::High));
    let removed = store.remove("Buy milk");
    assert_eq!(removed, Ok("Task \"Buy milk\" removed".to_owned()));
    let names: Vec<&str> = store.enumerate().iter().map(|t| t.name.as_str()).collect();
    assert_eq!(names, vec!["Fix bug"]);
    let when = ts(2025, 2, 3, 4, 5, 6);
    let edited = store.edit(
        "Fix bug",
        "Fix bug".to_owned(),
        "fixed".to_owned(),
        Priority::Medium,
        when,
    );
    assert_eq!(
        edited,
        Ok("Task \"Fix bug\" successfully updated at 03-02-2025 04:05:06".to_owned())
    );
    let t = &store.enumerate()[0];
    assert_eq!(t.date_updated, Some(when));
    assert_eq!(t.priority, Priority::Medium);
    assert_eq!(t.description, "fixed");
}

#[test]
fn timestamp_new_keeps_fields_in_range() {
    let t = ts(2024, 12, 31, 23, 59, 58);
    assert_eq!(
        (t.year, t.month, t.day, t.hour, t.minute, t.second),
        (2024, 12, 31, 23, 59, 58)
    );
}

#[test]
fn timestamp_new_clamps_fields_out_of_range() {
    let t = ts(-5, 0, 99, 99, 99, 99);
    assert_eq!((t.year, t.month, t.day, t.hour, t.minute, t.second), (0, 1, 31, 23, 59, 59));
    let t2 = ts(123456, 13, 0, 24, 60, 60);
    assert_eq!(
        (t2.year, t2.month, t2.day, t2.hour, t2.minute, t2.second),
        (9999, 12, 1, 23, 59, 59)
    );
}

#[test]
fn priority_to_string_is_fixed_mapping() {
    assert_eq!(Priority::Low.to_string(), "Low");
    assert_eq!(Priority::Medium.to_string(), "Medium");
    assert_eq!(Priority::High.to_string(), "High");
}

#[test]
fn priority_from_input_maps_console_words() {
    assert_eq!(Priority::from_input("low"), Priority::Low);
    assert_eq!(Priority::from_input("medium"), Priority::Medium);
    assert_eq!(Priority::from_input("high"), Priority::High);
    assert_eq!(Priority::from_input("nonsense"), Priority::Low);
}

#[test]
fn clock_now_is_well_formed() {
    let t = task_tracker::now();
    assert!(t.is_wf());
}

#[test]
fn new_task_now_sets_fields_and_leaves_updated_absent() {
    let t = task_tracker::new_task_now("a".to_owned(), "b".to_owned(), Priority::Medium);
    assert_eq!(t.name, "a");
    assert_eq!(t.description, "b");
    assert_eq!(t.priority, Priority::Medium);
    assert!(t.date_updated.is_none());
    assert!(t.date_created.is_wf());
}

#[test]
fn display_line_formats_day_first() {
    let t = task("A", "B", Priority::Low);
    assert_eq!(t.display_line(), "A | Low | 02-01-2024 03:04:05\nB");
}
