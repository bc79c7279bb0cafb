use tasker::deadline::Deadline;
use tasker::task::{EnumValues, Task, TaskCategory, TaskOpResult, TaskPriority, TaskStutus};

fn fresh_task() -> Task {
    Task::new(
        TaskCategory::Personal,
        "Water plants".to_string(),
        "The ones on the balcony".to_string(),
        Deadline::default(),
        TaskPriority::Low,
        String::new(),
    )
}

#[test]
fn call_hello_world() {
    println!("Hello World");
}

#[test]
fn task_call_hello_world() {
    println!("Hello World");
}

#[test]
fn new_task_starts_active() {
    let t = fresh_task();
    assert_eq!(t.status(), TaskStutus::Active);
    assert_eq!(t.category(), TaskCategory::Personal);
    assert_eq!(t.title(), "Water plants");
}

#[test]
fn cancel_and_complete_set_status() {
    let mut t = fresh_task();
    assert!(t.cancel().is_ok());
    assert_eq!(t.status(), TaskStutus::Cancelled);
    let mut u = fresh_task();
    assert!(u.complete().is_ok());
    assert_eq!(u.status(), TaskStutus::Completed);
}

#[test]
fn delete_sets_status_from_any_state() {
    let mut t = fresh_task();
    t.complete().unwrap();
    let id = t.uuid();
    assert!(t.delete_by_id(&id).is_ok());
    assert_eq!(t.status(), TaskStutus::Deleted);
    let mut u = fresh_task();
    assert!(u.delete_by_title("Water plants").is_ok());
    assert_eq!(u.status(), TaskStutus::Deleted);
}

#[test]
fn expire_requires_completed() {
    let mut t = fresh_task();
    let r = t.expire();
    assert!(r.is_err());
    match r.unwrap_err() {
        TaskOpResult::Failure(m) => {
            assert_eq!(m, "To expire a task, complete it first.")
        }
        TaskOpResult::Success => panic!("an expire failure must carry a reason"),
    }
    assert_eq!(t.status(), TaskStutus::Active);
    t.complete().unwrap();
    assert!(t.expire().is_ok());
    assert_eq!(t.status(), TaskStutus::Expired);
}

#[test]
fn erase_requires_deleted() {
    let mut t = fresh_task();
    let r = t.erase();
    assert!(r.is_err());
    match r.unwrap_err() {
        TaskOpResult::Failure(m) => assert_eq!(
            m,
            "To completely erase the task from the disk, first delete it and then request erase."
        ),
        TaskOpResult::Success => panic!("an erase failure must carry a reason"),
    }
    assert_eq!(t.status(), TaskStutus::Active);
    let id = t.uuid();
    t.delete_by_id(&id).unwrap();
    assert!(t.erase().is_ok());
    assert_eq!(t.status(), TaskStutus::Deleted);
}

#[test]
fn update_rewrites_the_four_attributes() {
    let mut t = fresh_task();
    let d = Deadline::checked(2030, 1, 2, 3, 4, 5, false, 0, 0).unwrap();
    assert!(t.update("new desc".to_string(), d, TaskPriority::High, "new notes".to_string())
        .is_ok());
    assert_eq!(t.description(), "new desc");
    assert_eq!(*t.deadline(), d);
    assert_eq!(t.priority(), TaskPriority::High);
    assert_eq!(t.notes(), "new notes");
    assert_eq!(t.title(), "Water plants");
    assert_eq!(t.status(), TaskStutus::Active);
}

#[test]
fn modify_is_a_reserved_hook_that_succeeds() {
    let t = fresh_task();
    assert!(t.modify("Another title").is_ok());
}

#[test]
fn defaults_match_the_documented_values() {
    assert_eq!(TaskPriority::default(), TaskPriority::Medium);
    assert_eq!(TaskStutus::default(), TaskStutus::Active);
    assert_eq!(TaskCategory::default(), TaskCategory::Personal);
    let d = Deadline::default();
    assert_eq!(d.to_text(), "1970-01-01 00:00:00 +00:00");
    let t = Task::default();
    assert_eq!(t.status(), TaskStutus::Active);
    assert_eq!(t.title(), "");
    assert_eq!(t.uuid().value(), 0);
}

#[test]
fn enum_values_list_every_variant_in_order() {
    assert_eq!(
        TaskPriority::values(),
        vec![TaskPriority::Low, TaskPriority::Medium, TaskPriority::High]
    );
    assert_eq!(
        TaskStutus::values(),
        vec![
            TaskStutus::Active,
            TaskStutus::Cancelled,
            TaskStutus::Completed,
            TaskStutus::Deleted,
            TaskStutus::Expired,
        ]
    );
    assert_eq!(
        TaskCategory::values(),
        vec![TaskCategory::Work, TaskCategory::Personal, TaskCategory::Health]
    );
}
