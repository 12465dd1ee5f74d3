use taskman::codec::deserialize;
use taskman::store::TaskManager;
use taskman::task::{Priority, Task, Timestamp};

fn stamp() -> Timestamp {
    Timestamp { year: 2024, month: 5, day: 17, hour: 12, minute: 30, second: 45 }
}

fn task(name: &str, description: &str, priority: Priority) -> Task {
    Task {
        name: name.to_string(),
        description: description.to_string(),
        priority,
        created_at: stamp(),
    }
}

fn store_of(tasks: Vec<Task>) -> TaskManager {
    let mut store = TaskManager::new();
    for t in tasks {
        store.push(t);
    }
    store
}

#[test]
fn serialize_empty_store() {
    let store = TaskManager::new();
    assert_eq!(store.serialize(), "[]");
}

#[test]
fn deserialize_empty_store() {
    let tasks = deserialize("[]").unwrap();
    assert_eq!(tasks.len(), 0);
}

#[test]
fn serialize_one_task_exact_text() {
    let store = store_of(vec![task("A", "B", Priority::Low)]);
    assert_eq!(
        store.serialize(),
        "[{\"name\":\"A\",\"description\":\"B\",\"priority\":\"Low\",\"createdAt\":\"2024-05-17T12:30:45\"}]"
    );
}

#[test]
fn serialize_escapes_quotes_and_backslashes() {
    let store = store_of(vec![task("a\"b", "c\\d", Priority::High)]);
    assert_eq!(
        store.serialize(),
        "[{\"name\":\"a\\\"b\",\"description\":\"c\\\\d\",\"priority\":\"High\",\"createdAt\":\"2024-05-17T12:30:45\"}]"
    );
}

#[test]
fn deserialize_known_text() {
    let text = "[{\"name\":\"Milk\",\"description\":\"2%\",\"priority\":\"Medium\",\"createdAt\":\"1999-12-31T23:59:59\"}]";
    let tasks = deserialize(text).unwrap();
    assert_eq!(tasks.len(), 1);
    assert_eq!(tasks[0].name, "Milk");
    assert_eq!(tasks[0].description, "2%");
    assert_eq!(tasks[0].priority, Priority::Medium);
    assert_eq!(
        tasks[0].created_at,
        Timestamp { year: 1999, month: 12, day: 31, hour: 23, minute: 59, second: 59 }
    );
}

#[test]
fn round_trip_preserves_every_field() {
    let mut originals = vec![
        task("Bread", "Buy bread", Priority::Low),
        task("a\"b\\c", "line one\nline two", Priority::Medium),
        task("", "", Priority::High),
        task("Très tôt", "naïve café", Priority::VeryHigh),
    ];
    originals[1].created_at = Timestamp { year: 1, month: 1, day: 1, hour: 0, minute: 0, second: 0 };
    originals[2].created_at = Timestamp { year: 9999, month: 12, day: 31, hour: 23, minute: 59, second: 59 };
    let store = store_of(originals);
    let text = store.serialize();
    let read = deserialize(&text).unwrap();
    assert_eq!(read.len(), store.len());
    for (a, b) in store.tasks.iter().zip(read.iter()) {
        assert_eq!(a.name, b.name);
        assert_eq!(a.description, b.description);
        assert_eq!(a.priority, b.priority);
        assert_eq!(a.created_at, b.created_at);
    }
}

#[test]
fn round_trip_preserves_unset_priority() {
    let store = store_of(vec![task("placeholder", "", Priority::Unset)]);
    let read = deserialize(&store.serialize()).unwrap();
    assert_eq!(read.len(), 1);
    assert_eq!(read[0].priority, Priority::Unset);
}

#[test]
fn deserialize_rejects_malformed_input() {
    assert!(deserialize("").is_err());
    assert!(deserialize("[").is_err());
    assert!(deserialize("{}").is_err());
    assert!(deserialize("[]x").is_err());
    assert!(deserialize("[{\"name\":\"A\"}]").is_err());
    assert!(deserialize("[{\"name\":\"A\",\"description\":\"B\",\"priority\":\"Urgent\",\"createdAt\":\"2024-05-17T12:30:45\"}]").is_err());
    assert!(deserialize("[{\"name\":\"A\",\"description\":\"B\",\"priority\":\"Low\",\"createdAt\":\"2024-13-17T12:30:45\"}]").is_err());
    assert!(deserialize("[{\"name\":\"A\",\"description\":\"B\",\"priority\":\"Low\",\"createdAt\":\"2024-05-17\"}]").is_err());
    assert!(deserialize("[{\"name\":\"A\",\"description\":\"B\",\"priority\":\"Low\",\"createdAt\":\"2024-05-17T12:30:45\"}] ").is_err());
}

#[test]
fn load_from_str_replaces_contents() {
    let mut store = store_of(vec![task("Old", "stale", Priority::Low)]);
    let text = "[{\"name\":\"New\",\"description\":\"fresh\",\"priority\":\"High\",\"createdAt\":\"2020-02-29T08:00:00\"}]";
    store.load_from_str(text).unwrap();
    assert_eq!(store.len(), 1);
    assert_eq!(store.tasks[0].name, "New");
    assert_eq!(store.tasks[0].priority, Priority::High);
}

#[test]
fn load_from_str_on_malformed_input_leaves_store_unchanged() {
    let mut store = store_of(vec![task("Keep", "me", Priority::Medium)]);
    assert!(store.load_from_str("not a store").is_err());
    assert_eq!(store.len(), 1);
    assert_eq!(store.tasks[0].name, "Keep");
    assert_eq!(store.tasks[0].description, "me");
}

#[test]
fn display_line_exact_text() {
    let t = task("Bread", "Buy bread", Priority::Low);
    assert_eq!(t.display_line(), "Bread | Low | 17-05-2024  12:30:45\n\"Buy bread\"");
}

#[test]
fn timestamp_display_exact_text() {
    assert_eq!(stamp().display(), "17-05-2024  12:30:45");
    let early = Timestamp { year: 7, month: 1, day: 2, hour: 3, minute: 4, second: 5 };
    assert_eq!(early.display(), "02-01-0007  03:04:05");
}

#[test]
fn priority_labels() {
    assert_eq!(Priority::Low.to_string(), "Low");
    assert_eq!(Priority::Medium.to_string(), "Medium");
    assert_eq!(Priority::High.to_string(), "High");
    assert_eq!(Priority::VeryHigh.to_string(), "Very High");
    assert_eq!(Priority::Unset.to_string(), "");
}

#[test]
fn from_clock_clamps_out_of_range_fields() {
    let t = Timestamp::from_clock(2024, 5, 17, 12, 30, 45);
    assert_eq!(t, stamp());
    let clamped = Timestamp::from_clock(-50, 0, 99, 99, 99, 99);
    assert!(clamped.is_wf());
    assert_eq!(clamped.year, 0);
    assert_eq!(clamped.month, 1);
    assert_eq!(clamped.day, 1);
    assert_eq!(clamped.hour, 0);
}
