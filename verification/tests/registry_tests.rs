use tasker::deadline::Deadline;
use tasker::id::TaskId;
use tasker::registry::{
    selected_statuses, FileLoadHandler, LoadOptions, LoadResults, LoadSource, RegistryError,
    TaskManager,
};
use tasker::task::{Task, TaskCategory, TaskPriority, TaskStutus};

fn record(id: u128, title: &str, category: TaskCategory, status: TaskStutus) -> String {
    let task = Task::from_parts(
        TaskId::from_value(id),
        title.to_string(),
        category,
        "desc".to_string(),
        Deadline::checked(2024, 5, 17, 13, 45, 30, false, 5, 30).unwrap(),
        TaskPriority::Medium,
        "notes".to_string(),
        status,
    );
    task.to_record()
}

#[test]
fn add_task_before_load_is_a_precondition_error() {
    let mut manager = TaskManager::new();
    assert!(!manager.is_loaded());
    let r = manager.add_task(Task::default());
    match r.unwrap_err() {
        RegistryError::Precondition(m) => {
            assert_eq!(m, "Call TaskManager.load_tasks first before adding a task")
        }
        _ => panic!("add_task before load must signal a precondition error"),
    }
    assert!(!manager.is_loaded());
    assert_eq!(manager.task_count(), 0);
}

#[test]
fn load_then_add_task_stores_under_category_and_id() {
    let mut manager = TaskManager::new();
    let options = LoadOptions::new(LoadSource::FilesDirectoryPath("dir".to_string()));
    let partitions = vec![Some(String::new())];
    manager.load_tasks(&options, &partitions).unwrap();
    let task = Task::new(
        TaskCategory::Health,
        "Run".to_string(),
        String::new(),
        Deadline::default(),
        TaskPriority::Low,
        String::new(),
    );
    let id = task.uuid();
    manager.add_task(task).unwrap();
    let found = manager.get_task(TaskCategory::Health, &id).unwrap();
    assert_eq!(found.title(), "Run");
    assert!(manager.get_task(TaskCategory::Work, &id).is_none());
}

#[test]
fn add_task_overwrites_a_duplicate_identifier() {
    let mut manager = TaskManager::new();
    let options = LoadOptions::new(LoadSource::FilesDirectoryPath("dir".to_string()));
    manager.load_tasks(&options, &vec![Some(String::new())]).unwrap();
    let id = TaskId::from_value(7);
    let first = Task::from_parts(
        id,
        "First".to_string(),
        TaskCategory::Work,
        String::new(),
        Deadline::default(),
        TaskPriority::Low,
        String::new(),
        TaskStutus::Active,
    );
    let second = Task::from_parts(
        id,
        "Second".to_string(),
        TaskCategory::Work,
        String::new(),
        Deadline::default(),
        TaskPriority::High,
        String::new(),
        TaskStutus::Active,
    );
    manager.add_task(first).unwrap();
    manager.add_task(second).unwrap();
    assert_eq!(manager.task_count(), 1);
    let found = manager.get_task(TaskCategory::Work, &id).unwrap();
    assert_eq!(found.title(), "Second");
}

#[test]
fn database_source_is_not_available() {
    let mut manager = TaskManager::new();
    let options = LoadOptions::new(LoadSource::Database("postgres://box".to_string()));
    let r = manager.load_tasks(&options, &vec![Some(String::new())]);
    match r.unwrap_err() {
        RegistryError::Config(m) => {
            assert_eq!(m, "Database: postgres://box : Implementation Not Available")
        }
        _ => panic!("a database source must be refused as a configuration error"),
    }
    assert!(!manager.is_loaded());
}

#[test]
fn missing_selected_partition_is_an_io_error() {
    let mut manager = TaskManager::new();
    let options = LoadOptions::new(LoadSource::FilesDirectoryPath("D".to_string()));
    let r = manager.load_tasks(&options, &vec![None]);
    match r.unwrap_err() {
        RegistryError::Io(m) => assert_eq!(m, "Missing partition file: D/active.tsk"),
        _ => panic!("a missing selected partition must surface as an I/O error"),
    }
    assert!(!manager.is_loaded());
}

#[test]
fn one_bad_line_never_fails_the_load() {
    let good = record(1, "Good", TaskCategory::Work, TaskStutus::Active);
    let content = format!("{}\nthis line is corrupt\n", good);
    let (tasks, diags) = FileLoadHandler::decode_partition(&content);
    assert_eq!(tasks.len(), 1);
    assert_eq!(tasks[0].title(), "Good");
    assert_eq!(diags.len(), 1);
    assert_eq!(diags[0], "Skipped unparsable record: this line is corrupt");
}

#[test]
fn blank_lines_are_tolerated_and_skipped() {
    let good = record(2, "Only", TaskCategory::Personal, TaskStutus::Active);
    let content = format!("\n\r\n{}\r\n\n", good);
    let (tasks, diags) = FileLoadHandler::decode_partition(&content);
    assert_eq!(tasks.len(), 1);
    assert!(diags.is_empty());
}

#[test]
fn load_partitions_by_status_into_categories() {
    let mut manager = TaskManager::new();
    let mut options = LoadOptions::new(LoadSource::FilesDirectoryPath("D".to_string()));
    options.load_completed = true;
    let statuses: Vec<TaskStutus> = selected_statuses(&options);
    assert_eq!(statuses, vec![TaskStutus::Active, TaskStutus::Completed]);
    let active = record(0xa, "A", TaskCategory::Work, TaskStutus::Active);
    let completed = record(0xb, "B", TaskCategory::Health, TaskStutus::Completed);
    let partitions = vec![Some(format!("{}\n", active)), Some(format!("{}\n", completed))];
    let diags = manager.load_tasks(&options, &partitions).unwrap();
    assert!(diags.is_empty());
    assert_eq!(manager.task_count(), 2);
    let a = manager.get_task(TaskCategory::Work, &TaskId::from_value(0xa)).unwrap();
    assert_eq!(a.title(), "A");
    assert_eq!(a.status(), TaskStutus::Active);
    let b = manager.get_task(TaskCategory::Health, &TaskId::from_value(0xb)).unwrap();
    assert_eq!(b.title(), "B");
    assert_eq!(b.status(), TaskStutus::Completed);
}

#[test]
fn failed_load_leaves_previous_state_untouched() {
    let mut manager = TaskManager::new();
    let options = LoadOptions::new(LoadSource::FilesDirectoryPath("D".to_string()));
    let one = record(5, "Keep me", TaskCategory::Work, TaskStutus::Active);
    manager.load_tasks(&options, &vec![Some(one)]).unwrap();
    assert_eq!(manager.task_count(), 1);
    let r = manager.load_tasks(&options, &vec![None]);
    assert!(r.is_err());
    assert_eq!(manager.task_count(), 1);
    assert!(manager.get_task(TaskCategory::Work, &TaskId::from_value(5)).is_some());
}

#[test]
fn erase_removes_a_deleted_task_from_the_live_view_and_from_saves() {
    let mut manager = TaskManager::new();
    let options = LoadOptions::new(LoadSource::FilesDirectoryPath("D".to_string()));
    let line = record(9, "Gone", TaskCategory::Work, TaskStutus::Deleted);
    manager.load_tasks(&options, &vec![Some(line)]).unwrap();
    let id = TaskId::from_value(9);
    assert!(manager.get_task(TaskCategory::Work, &id).is_some());
    manager.erase_task(TaskCategory::Work, &id).unwrap();
    assert!(manager.get_task(TaskCategory::Work, &id).is_none());
    assert_eq!(manager.task_count(), 0);
    let handler = FileLoadHandler::new("D".to_string());
    assert_eq!(handler.save_tasks(&Vec::new())[3].1, "");
}

#[test]
fn erase_at_the_registry_requires_deleted_status() {
    let mut manager = TaskManager::new();
    let id = TaskId::from_value(4);
    match manager.erase_task(TaskCategory::Work, &id).unwrap_err() {
        RegistryError::Precondition(_) => {}
        _ => panic!("erase before load must signal a precondition error"),
    }
    let options = LoadOptions::new(LoadSource::FilesDirectoryPath("D".to_string()));
    let line = record(4, "Alive", TaskCategory::Work, TaskStutus::Active);
    manager.load_tasks(&options, &vec![Some(line)]).unwrap();
    match manager.erase_task(TaskCategory::Work, &id).unwrap_err() {
        RegistryError::State(m) => assert_eq!(
            m,
            "To completely erase the task from the disk, first delete it and then request erase."
        ),
        _ => panic!("erasing a live task must signal a state error"),
    }
    assert!(manager.get_task(TaskCategory::Work, &id).is_some());
    match manager.erase_task(TaskCategory::Health, &id).unwrap_err() {
        RegistryError::State(m) => {
            assert_eq!(m, "No task with that identifier exists in that category.")
        }
        _ => panic!("erasing an unknown task must signal a state error"),
    }
}

#[test]
fn save_renders_one_file_per_status() {
    let handler = FileLoadHandler::new("base".to_string());
    let active = Task::from_parts(
        TaskId::from_value(1),
        "A".to_string(),
        TaskCategory::Work,
        String::new(),
        Deadline::default(),
        TaskPriority::Low,
        String::new(),
        TaskStutus::Active,
    );
    let done = Task::from_parts(
        TaskId::from_value(2),
        "B".to_string(),
        TaskCategory::Work,
        String::new(),
        Deadline::default(),
        TaskPriority::Low,
        String::new(),
        TaskStutus::Completed,
    );
    let expected_active = active.to_record();
    let expected_done = done.to_record();
    let out = handler.save_tasks(&vec![active, done]);
    assert_eq!(out.len(), 5);
    assert_eq!(out[0].0, "base/active.tsk");
    assert_eq!(out[0].1, format!("{}\n", expected_active));
    assert_eq!(out[2].0, "base/completed.tsk");
    assert_eq!(out[2].1, format!("{}\n", expected_done));
    assert_eq!(out[1].1, "");
    assert_eq!(out[3].1, "");
    assert_eq!(out[4].1, "");
}

#[test]
fn partition_file_names_are_fixed_per_status() {
    let handler = FileLoadHandler::new("dir".to_string());
    assert_eq!(handler.partition_file_name(TaskStutus::Active), "dir/active.tsk");
    assert_eq!(handler.partition_file_name(TaskStutus::Cancelled), "dir/cancelled.tsk");
    assert_eq!(handler.partition_file_name(TaskStutus::Expired), "dir/expired.tsk");
}

#[test]
fn a_successful_load_configures_the_backend() {
    let mut manager = TaskManager::new();
    assert!(manager.backend().is_none());
    let options = LoadOptions::new(LoadSource::FilesDirectoryPath("dir".to_string()));
    manager.load_tasks(&options, &vec![Some(String::new())]).unwrap();
    let backend = manager.backend().expect("a successful load must configure the backend");
    assert_eq!(backend.partition_file_name(TaskStutus::Active), "dir/active.tsk");
}

#[test]
fn load_source_descriptions() {
    let f = LoadSource::FilesDirectoryPath("/tmp/tasks".to_string());
    assert_eq!(f.describe(), "Files Directory Path: /tmp/tasks");
    let d = LoadSource::Database("conn".to_string());
    assert_eq!(d.describe(), "Database: conn");
}

#[test]
fn load_results_wrap_the_given_tasks() {
    let results = LoadResults::new(vec![Task::default()]);
    assert_eq!(results.tasks.len(), 1);
}
