use taskman::store::TaskManager;
use taskman::task::{Priority, Task, Timestamp};

fn stamp() -> Timestamp {
    Timestamp { year: 2024, month: 5, day: 17, hour: 12, minute: 30, second: 45 }
}

fn task(name: &str, description: &str, priority: Priority) -> Task {
    Task {
        name: name.to_string(),
        description: description.to_string(),
        priority,
        created_at: stamp(),
    }
}

#[test]
fn append_then_find_returns_index() {
    let mut store = TaskManager::new();
    store.push(task("Alpha", "first", Priority::Low));
    assert_eq!(store.find("Alpha"), Some(0));
    store.push(task("Beta", "second", Priority::High));
    assert_eq!(store.find("Beta"), Some(1));
    assert_eq!(store.find("Alpha"), Some(0));
}

#[test]
fn find_is_case_insensitive() {
    let mut store = TaskManager::new();
    store.push(task("Bread", "Buy bread", Priority::Low));
    assert_eq!(store.find("BREAD"), Some(0));
    assert_eq!(store.find("bread"), Some(0));
    assert_eq!(store.find("bReAd"), Some(0));
    assert_eq!(store.find("crumbs"), None);
}

#[test]
fn remove_groceries_any_case_removes_exactly_one() {
    let mut store = TaskManager::new();
    store.push(task("Rent", "pay it", Priority::High));
    store.push(task("Groceries", "weekly run", Priority::Medium));
    store.push(task("Laundry", "whites", Priority::Low));
    let removed = store.remove("gROCERIES").unwrap();
    assert_eq!(removed.name, "Groceries");
    assert_eq!(removed.description, "weekly run");
    assert_eq!(store.len(), 2);
    assert_eq!(store.tasks[0].name, "Rent");
    assert_eq!(store.tasks[1].name, "Laundry");
}

#[test]
fn remove_missing_name_fails_without_mutating() {
    let mut store = TaskManager::new();
    store.push(task("Rent", "pay it", Priority::High));
    store.push(task("Laundry", "whites", Priority::Low));
    let err = store.remove("Groceries").unwrap_err();
    assert_eq!(err.name, "Groceries");
    assert_eq!(store.len(), 2);
    assert_eq!(store.tasks[0].name, "Rent");
    assert_eq!(store.tasks[1].name, "Laundry");
}

#[test]
fn pop_on_empty_store_is_none_not_an_error() {
    let mut store = TaskManager::new();
    assert!(store.pop().is_none());
    assert_eq!(store.len(), 0);
}

#[test]
fn pop_returns_most_recently_appended_and_shrinks_by_one() {
    let mut store = TaskManager::new();
    store.push(task("one", "", Priority::Low));
    store.push(task("two", "", Priority::Medium));
    store.push(task("three", "", Priority::High));
    let popped = store.pop().unwrap();
    assert_eq!(popped.name, "three");
    assert_eq!(store.len(), 2);
    let popped = store.pop().unwrap();
    assert_eq!(popped.name, "two");
    assert_eq!(store.len(), 1);
}

#[test]
fn clear_empties_the_store() {
    let mut store = TaskManager::new();
    store.push(task("one", "", Priority::Low));
    store.push(task("two", "", Priority::Medium));
    store.clear();
    assert_eq!(store.len(), 0);
    assert!(store.pop().is_none());
}

#[test]
fn duplicate_names_find_and_remove_first_match() {
    let mut store = TaskManager::new();
    store.push(task("Same", "first copy", Priority::Low));
    store.push(task("Same", "second copy", Priority::High));
    assert_eq!(store.find("same"), Some(0));
    let removed = store.remove("SAME").unwrap();
    assert_eq!(removed.description, "first copy");
    assert_eq!(store.len(), 1);
    assert_eq!(store.tasks[0].description, "second copy");
}

#[test]
fn scenario_bread_then_milk_then_remove_bread() {
    let mut store = TaskManager::new();
    assert_eq!(store.len(), 0);
    store.push(task("Bread", "Buy bread", Priority::Low));
    store.push(task("Milk", "2%", Priority::Medium));
    assert_eq!(store.len(), 2);
    assert_eq!(store.tasks[0].name, "Bread");
    assert_eq!(store.tasks[0].description, "Buy bread");
    assert_eq!(store.tasks[0].priority, Priority::Low);
    assert_eq!(store.tasks[1].name, "Milk");
    assert_eq!(store.tasks[1].description, "2%");
    assert_eq!(store.tasks[1].priority, Priority::Medium);
    let removed = store.remove("bread").unwrap();
    assert_eq!(removed.name, "Bread");
    assert_eq!(removed.description, "Buy bread");
    assert_eq!(removed.priority, Priority::Low);
    assert_eq!(store.len(), 1);
    assert_eq!(store.tasks[0].name, "Milk");
}

#[test]
fn new_task_keeps_name_description_and_priority() {
    let t = Task::new("Call mom".to_string(), "Sunday".to_string(), Priority::VeryHigh);
    assert_eq!(t.name, "Call mom");
    assert_eq!(t.description, "Sunday");
    assert_eq!(t.priority, Priority::VeryHigh);
    assert!(t.created_at.is_wf());
}
