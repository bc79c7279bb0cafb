//! The task entity: value enums with canonical string forms, the task
//! record itself, and the lifecycle state machine.

use vstd::prelude::*;
use vstd::string::*;
use crate::deadline::Deadline;
use crate::id::TaskId;
use crate::text::{convert_err, convert_err_msg, trim_exec, trim_spec};

verus! {

/// A closed enum that can enumerate all of its values.
pub trait EnumValues: Sized {
    /// The values of the enum, in declaration order.
    spec fn values_spec() -> Seq<Self>;

    /// Returns every value of the enum, in declaration order.
    fn values() -> (r: Vec<Self>)
        ensures
            r@ == Self::values_spec();
}

// ---------------------------------------------------------------------------
// Priority
// ---------------------------------------------------------------------------

/// How urgent a task is.
#[derive(Debug, PartialEq, Copy, Clone, Eq, Structural, Hash)]
pub enum TaskPriority {
    Low,
    Medium,
    High,
}

/// The canonical string form of a priority.
pub open spec fn priority_chars(p: TaskPriority) -> Seq<char> {
    match p {
        TaskPriority::Low => "Low"@,
        TaskPriority::Medium => "Medium"@,
        TaskPriority::High => "High"@,
    }
}

/// Parses the canonical string form of a priority.
pub open spec fn parse_priority_spec(s: Seq<char>) -> Option<TaskPriority> {
    if s == "Low"@ {
        Some(TaskPriority::Low)
    } else if s == "Medium"@ {
        Some(TaskPriority::Medium)
    } else if s == "High"@ {
        Some(TaskPriority::High)
    } else {
        None
    }
}

impl TaskPriority {
    /// Parses a priority from its canonical name, ignoring surrounding
    /// whitespace.
    pub fn try_from(value: &str) -> (r: Result<TaskPriority, String>)
        ensures
            match r {
                Ok(p) => parse_priority_spec(trim_spec(value@)) == Some(p),
                Err(e) => parse_priority_spec(trim_spec(value@)) is None
                    && e@ == convert_err_msg(value@, "TaskPriority"@),
            },
    {
        let t = trim_exec(value);
        if t == String::from_str("Low") {
            Ok(TaskPriority::Low)
        } else if t == String::from_str("Medium") {
            Ok(TaskPriority::Medium)
        } else if t == String::from_str("High") {
            Ok(TaskPriority::High)
        } else {
            Err(convert_err(value, "TaskPriority"))
        }
    }

    /// Renders the canonical name.
    pub fn into(self) -> (r: String)
        ensures
            r@ == priority_chars(self),
    {
        match self {
            TaskPriority::Low => String::from_str("Low"),
            TaskPriority::Medium => String::from_str("Medium"),
            TaskPriority::High => String::from_str("High"),
        }
    }
}

impl Default for TaskPriority {
    /// The default priority is `Medium`.
    fn default() -> (r: Self)
        ensures
            r == TaskPriority::Medium,
    {
        TaskPriority::Medium
    }
}

impl EnumValues for TaskPriority {
    open spec fn values_spec() -> Seq<TaskPriority> {
        seq![TaskPriority::Low, TaskPriority::Medium, TaskPriority::High]
    }

    fn values() -> (r: Vec<TaskPriority>) {
        let mut v: Vec<TaskPriority> = Vec::new();
        v.push(TaskPriority::Low);
        v.push(TaskPriority::Medium);
        v.push(TaskPriority::High);
        proof {
            assert(v@ =~= Self::values_spec());
        }
        v
    }
}

// ---------------------------------------------------------------------------
// Status
// ---------------------------------------------------------------------------

/// Where a task stands in its lifecycle.
#[derive(Debug, PartialEq, Copy, Clone, Eq, Structural, Hash)]
pub enum TaskStutus {
    Active,
    Cancelled,
    Completed,
    Deleted,
    Expired,
}

/// The canonical string form of a status.
pub open spec fn status_chars(s: TaskStutus) -> Seq<char> {
    match s {
        TaskStutus::Active => "Active"@,
        TaskStutus::Cancelled => "Cancelled"@,
        TaskStutus::Completed => "Completed"@,
        TaskStutus::Deleted => "Deleted"@,
        TaskStutus::Expired => "Expired"@,
    }
}

/// Parses the canonical string form of a status.
pub open spec fn parse_status_spec(s: Seq<char>) -> Option<TaskStutus> {
    if s == "Active"@ {
        Some(TaskStutus::Active)
    } else if s == "Cancelled"@ {
        Some(TaskStutus::Cancelled)
    } else if s == "Completed"@ {
        Some(TaskStutus::Completed)
    } else if s == "Deleted"@ {
        Some(TaskStutus::Deleted)
    } else if s == "Expired"@ {
        Some(TaskStutus::Expired)
    } else {
        None
    }
}

impl TaskStutus {
    /// Parses a status from its canonical name, ignoring surrounding
    /// whitespace.
    pub fn try_from(value: &str) -> (r: Result<TaskStutus, String>)
        ensures
            match r {
                Ok(s) => parse_status_spec(trim_spec(value@)) == Some(s),
                Err(e) => parse_status_spec(trim_spec(value@)) is None
                    && e@ == convert_err_msg(value@, "TaskStutus"@),
            },
    {
        let t = trim_exec(value);
        if t == String::from_str("Active") {
            Ok(TaskStutus::Active)
        } else if t == String::from_str("Cancelled") {
            Ok(TaskStutus::Cancelled)
        } else if t == String::from_str("Completed") {
            Ok(TaskStutus::Completed)
        } else if t == String::from_str("Deleted") {
            Ok(TaskStutus::Deleted)
        } else if t == String::from_str("Expired") {
            Ok(TaskStutus::Expired)
        } else {
            Err(convert_err(value, "TaskStutus"))
        }
    }

    /// Renders the canonical name.
    pub fn into(self) -> (r: String)
        ensures
            r@ == status_chars(self),
    {
        match self {
            TaskStutus::Active => String::from_str("Active"),
            TaskStutus::Cancelled => String::from_str("Cancelled"),
            TaskStutus::Completed => String::from_str("Completed"),
            TaskStutus::Deleted => String::from_str("Deleted"),
            TaskStutus::Expired => String::from_str("Expired"),
        }
    }
}

impl Default for TaskStutus {
    /// The default status is `Active`.
    fn default() -> (r: Self)
        ensures
            r == TaskStutus::Active,
    {
        TaskStutus::Active
    }
}

impl EnumValues for TaskStutus {
    open spec fn values_spec() -> Seq<TaskStutus> {
        seq![
            TaskStutus::Active,
            TaskStutus::Cancelled,
            TaskStutus::Completed,
            TaskStutus::Deleted,
            TaskStutus::Expired,
        ]
    }

    fn values() -> (r: Vec<TaskStutus>) {
        let mut v: Vec<TaskStutus> = Vec::new();
        v.push(TaskStutus::Active);
        v.push(TaskStutus::Cancelled);
        v.push(TaskStutus::Completed);
        v.push(TaskStutus::Deleted);
        v.push(TaskStutus::Expired);
        proof {
            assert(v@ =~= Self::values_spec());
        }
        v
    }
}

// ---------------------------------------------------------------------------
// Category
// ---------------------------------------------------------------------------

/// The partition a task belongs to.
#[derive(Debug, PartialEq, Copy, Clone, Eq, Structural, Hash)]
pub enum TaskCategory {
    Work,
    Personal,
    Health,
}

/// The canonical string form of a category.
pub open spec fn category_chars(c: TaskCategory) -> Seq<char> {
    match c {
        TaskCategory::Work => "Work"@,
        TaskCategory::Personal => "Personal"@,
        TaskCategory::Health => "Health"@,
    }
}

/// Parses the canonical string form of a category.
pub open spec fn parse_category_spec(s: Seq<char>) -> Option<TaskCategory> {
    if s == "Work"@ {
        Some(TaskCategory::Work)
    } else if s == "Personal"@ {
        Some(TaskCategory::Personal)
    } else if s == "Health"@ {
        Some(TaskCategory::Health)
    } else {
        None
    }
}

impl TaskCategory {
    /// Parses a category from its canonical name, ignoring surrounding
    /// whitespace.
    pub fn try_from(value: &str) -> (r: Result<TaskCategory, String>)
        ensures
            match r {
                Ok(c) => parse_category_spec(trim_spec(value@)) == Some(c),
                Err(e) => parse_category_spec(trim_spec(value@)) is None
                    && e@ == convert_err_msg(value@, "TaskCategory"@),
            },
    {
        let t = trim_exec(value);
        if t == String::from_str("Work") {
            Ok(TaskCategory::Work)
        } else if t == String::from_str("Personal") {
            Ok(TaskCategory::Personal)
        } else if t == String::from_str("Health") {
            Ok(TaskCategory::Health)
        } else {
            Err(convert_err(value, "TaskCategory"))
        }
    }

    /// Renders the canonical name.
    pub fn into(self) -> (r: String)
        ensures
            r@ == category_chars(self),
    {
        match self {
            TaskCategory::Work => String::from_str("Work"),
            TaskCategory::Personal => String::from_str("Personal"),
            TaskCategory::Health => String::from_str("Health"),
        }
    }
}

impl Default for TaskCategory {
    /// The default category is `Personal`.
    fn default() -> (r: Self)
        ensures
            r == TaskCategory::Personal,
    {
        TaskCategory::Personal
    }
}

impl EnumValues for TaskCategory {
    open spec fn values_spec() -> Seq<TaskCategory> {
        seq![TaskCategory::Work, TaskCategory::Personal, TaskCategory::Health]
    }

    fn values() -> (r: Vec<TaskCategory>) {
        let mut v: Vec<TaskCategory> = Vec::new();
        v.push(TaskCategory::Work);
        v.push(TaskCategory::Personal);
        v.push(TaskCategory::Health);
        proof {
            assert(v@ =~= Self::values_spec());
        }
        v
    }
}

// ---------------------------------------------------------------------------
// Facts about the canonical enum names
// ---------------------------------------------------------------------------

/// The canonical category names hold no caret, carry no surrounding
/// whitespace, and parse back to their value.
pub proof fn lemma_category_text(c: TaskCategory)
    ensures
        crate::text::no_caret(category_chars(c)),
        trim_spec(category_chars(c)) == category_chars(c),
        parse_category_spec(category_chars(c)) == Some(c),
{
    reveal_strlit("Work");
    reveal_strlit("Personal");
    reveal_strlit("Health");
    match c {
        TaskCategory::Work => {
            assert(parse_category_spec(category_chars(c)) == Some(TaskCategory::Work));
        },
        TaskCategory::Personal => {
            assert("Personal"@.len() == 8 && "Work"@.len() == 4);
            assert("Personal"@ != "Work"@);
            assert(parse_category_spec(category_chars(c)) == Some(TaskCategory::Personal));
        },
        TaskCategory::Health => {
            assert("Health"@.len() == 6 && "Work"@.len() == 4 && "Personal"@.len() == 8);
            assert("Health"@ != "Work"@ && "Health"@ != "Personal"@);
            assert(parse_category_spec(category_chars(c)) == Some(TaskCategory::Health));
        },
    }
}

/// The canonical priority names hold no caret, carry no surrounding
/// whitespace, and parse back to their value.
pub proof fn lemma_priority_text(p: TaskPriority)
    ensures
        crate::text::no_caret(priority_chars(p)),
        trim_spec(priority_chars(p)) == priority_chars(p),
        parse_priority_spec(priority_chars(p)) == Some(p),
{
    reveal_strlit("Low");
    reveal_strlit("Medium");
    reveal_strlit("High");
    match p {
        TaskPriority::Low => {
            assert(parse_priority_spec(priority_chars(p)) == Some(TaskPriority::Low));
        },
        TaskPriority::Medium => {
            assert("Medium"@.len() == 6 && "Low"@.len() == 3);
            assert("Medium"@ != "Low"@);
            assert(parse_priority_spec(priority_chars(p)) == Some(TaskPriority::Medium));
        },
        TaskPriority::High => {
            assert("High"@.len() == 4 && "Low"@.len() == 3 && "Medium"@.len() == 6);
            assert("High"@ != "Low"@ && "High"@ != "Medium"@);
            assert(parse_priority_spec(priority_chars(p)) == Some(TaskPriority::High));
        },
    }
}

/// The canonical status names hold no caret, carry no surrounding
/// whitespace, and parse back to their value.
pub proof fn lemma_status_text(s: TaskStutus)
    ensures
        crate::text::no_caret(status_chars(s)),
        trim_spec(status_chars(s)) == status_chars(s),
        parse_status_spec(status_chars(s)) == Some(s),
{
    reveal_strlit("Active");
    reveal_strlit("Cancelled");
    reveal_strlit("Completed");
    reveal_strlit("Deleted");
    reveal_strlit("Expired");
    assert("Active"@.len() == 6 && "Cancelled"@.len() == 9 && "Completed"@.len() == 9
        && "Deleted"@.len() == 7 && "Expired"@.len() == 7);
    if "Cancelled"@ == "Completed"@ {
        assert("Cancelled"@[1] == 'a');
        assert("Completed"@[1] == 'o');
        assert(false);
    }
    if "Deleted"@ == "Expired"@ {
        assert("Deleted"@[0] == 'D');
        assert("Expired"@[0] == 'E');
        assert(false);
    }
    match s {
        TaskStutus::Active => {
            assert(parse_status_spec(status_chars(s)) == Some(TaskStutus::Active));
        },
        TaskStutus::Cancelled => {
            assert("Cancelled"@ != "Active"@);
            assert(parse_status_spec(status_chars(s)) == Some(TaskStutus::Cancelled));
        },
        TaskStutus::Completed => {
            assert("Completed"@ != "Active"@ && "Completed"@ != "Cancelled"@);
            assert(parse_status_spec(status_chars(s)) == Some(TaskStutus::Completed));
        },
        TaskStutus::Deleted => {
            assert("Deleted"@ != "Active"@ && "Deleted"@ != "Cancelled"@
                && "Deleted"@ != "Completed"@);
            assert(parse_status_spec(status_chars(s)) == Some(TaskStutus::Deleted));
        },
        TaskStutus::Expired => {
            assert("Expired"@ != "Active"@ && "Expired"@ != "Cancelled"@
                && "Expired"@ != "Completed"@ && "Expired"@ != "Deleted"@);
            assert(parse_status_spec(status_chars(s)) == Some(TaskStutus::Expired));
        },
    }
}

/// A successfully parsed category token is exactly the canonical name.
pub proof fn lemma_category_canonical(s: Seq<char>, c: TaskCategory)
    requires
        parse_category_spec(s) == Some(c),
    ensures
        category_chars(c) == s,
{
}

/// A successfully parsed priority token is exactly the canonical name.
pub proof fn lemma_priority_canonical(s: Seq<char>, p: TaskPriority)
    requires
        parse_priority_spec(s) == Some(p),
    ensures
        priority_chars(p) == s,
{
}

/// A successfully parsed status token is exactly the canonical name.
pub proof fn lemma_status_canonical(s: Seq<char>, st: TaskStutus)
    requires
        parse_status_spec(s) == Some(st),
    ensures
        status_chars(st) == s,
{
}

// ---------------------------------------------------------------------------
// The task entity
// ---------------------------------------------------------------------------

/// The outcome of a lifecycle operation: success, or a failure with a
/// human-readable reason.
#[derive(Debug)]
pub enum TaskOpResult {
    Success,
    Failure(String),
}

/// The mathematical content of a task.
#[verifier::ext_equal]
pub ghost struct TaskView {
    pub uuid: u128,
    pub title: Seq<char>,
    pub category: TaskCategory,
    pub description: Seq<char>,
    pub deadline: Deadline,
    pub priority: TaskPriority,
    pub notes: Seq<char>,
    pub status: TaskStutus,
}

/// A task: an immutable identity and category, free-text attributes, a
/// deadline, a priority, and a lifecycle status.
#[derive(Debug, Clone)]
pub struct Task {
    uuid: TaskId,
    title: String,
    category: TaskCategory,
    description: String,
    deadline: Deadline,
    priority: TaskPriority,
    notes: String,
    status: TaskStutus,
}

impl View for Task {
    type V = TaskView;

    closed spec fn view(&self) -> TaskView {
        TaskView {
            uuid: self.uuid@,
            title: self.title@,
            category: self.category,
            description: self.description@,
            deadline: self.deadline,
            priority: self.priority,
            notes: self.notes@,
            status: self.status,
        }
    }
}

impl PartialEq for Task {
    /// Two tasks are equal when every field is equal.
    fn eq(&self, other: &Task) -> (r: bool) {
        let e1 = self.uuid == other.uuid;
        let e2 = self.title == other.title;
        let e3 = self.category == other.category;
        let e4 = self.description == other.description;
        let e5 = self.deadline == other.deadline;
        let e6 = self.priority == other.priority;
        let e7 = self.notes == other.notes;
        let e8 = self.status == other.status;
        let r = e1 && e2 && e3 && e4 && e5 && e6 && e7 && e8;
        proof {
            crate::id::lemma_id_view_injective(self.uuid, other.uuid);
            assert(e1 == (self.uuid@ == other.uuid@));
            assert(e2 == (self.title@ == other.title@));
            assert(e3 == (self.category == other.category));
            assert(e4 == (self.description@ == other.description@));
            assert(e5 == (self.deadline == other.deadline));
            assert(e6 == (self.priority == other.priority));
            assert(e7 == (self.notes@ == other.notes@));
            assert(e8 == (self.status == other.status));
            if r {
                assert(self@ =~= other@);
            }
        }
        r
    }
}

impl vstd::std_specs::cmp::PartialEqSpecImpl for Task {
    open spec fn obeys_eq_spec() -> bool {
        true
    }

    open spec fn eq_spec(&self, other: &Task) -> bool {
        self@ == other@
    }
}

impl Task {
    /// Creates a task with a fresh identifier and `Active` status.
    pub fn new(
        category: TaskCategory,
        title: String,
        description: String,
        deadline: Deadline,
        priority: TaskPriority,
        notes: String,
    ) -> (r: Task)
        ensures
            r@.title == title@,
            r@.category == category,
            r@.description == description@,
            r@.deadline == deadline,
            r@.priority == priority,
            r@.notes == notes@,
            r@.status == TaskStutus::Active,
    {
        Task {
            uuid: TaskId::generate(),
            title,
            category,
            description,
            deadline,
            priority,
            notes,
            status: TaskStutus::Active,
        }
    }

    /// Rebuilds a task from its parts, keeping the given identifier.
    pub fn from_parts(
        uuid: TaskId,
        title: String,
        category: TaskCategory,
        description: String,
        deadline: Deadline,
        priority: TaskPriority,
        notes: String,
        status: TaskStutus,
    ) -> (r: Task)
        ensures
            r@ == (TaskView {
                uuid: uuid@,
                title: title@,
                category,
                description: description@,
                deadline,
                priority,
                notes: notes@,
                status,
            }),
    {
        let t = Task { uuid, title, category, description, deadline, priority, notes, status };
        proof {
            assert(t@ =~= TaskView {
                uuid: uuid@,
                title: title@,
                category,
                description: description@,
                deadline,
                priority,
                notes: notes@,
                status,
            });
        }
        t
    }

    /// The task's identifier.
    pub fn uuid(&self) -> (r: TaskId)
        ensures
            r@ == self@.uuid,
    {
        self.uuid
    }

    /// The task's title.
    pub fn title(&self) -> (r: &str)
        ensures
            r@ == self@.title,
    {
        self.title.as_str()
    }

    /// The task's category.
    pub fn category(&self) -> (r: TaskCategory)
        ensures
            r == self@.category,
    {
        self.category
    }

    /// The task's description.
    pub fn description(&self) -> (r: &str)
        ensures
            r@ == self@.description,
    {
        self.description.as_str()
    }

    /// The task's deadline.
    pub fn deadline(&self) -> (r: &Deadline)
        ensures
            *r == self@.deadline,
    {
        &self.deadline
    }

    /// The task's priority.
    pub fn priority(&self) -> (r: TaskPriority)
        ensures
            r == self@.priority,
    {
        self.priority
    }

    /// The task's notes.
    pub fn notes(&self) -> (r: &str)
        ensures
            r@ == self@.notes,
    {
        self.notes.as_str()
    }

    /// The task's lifecycle status.
    pub fn status(&self) -> (r: TaskStutus)
        ensures
            r == self@.status,
    {
        self.status
    }

    /// Reserved hook for delegating a title change through the registry;
    /// it only validates locally for now and always succeeds.
    pub fn modify(&self, _title: &str) -> (r: Result<TaskOpResult, String>)
        ensures
            r matches Ok(TaskOpResult::Success),
    {
        Ok(TaskOpResult::Success)
    }

    /// Rewrites the four mutable attributes unconditionally; the title,
    /// category, identifier and status are untouched.
    pub fn update(
        &mut self,
        description: String,
        deadline: Deadline,
        priority: TaskPriority,
        notes: String,
    ) -> (r: Result<TaskOpResult, String>)
        ensures
            final(self)@ == (TaskView {
                description: description@,
                deadline,
                priority,
                notes: notes@,
                ..old(self)@
            }),
            r matches Ok(TaskOpResult::Success),
    {
        self.description = description;
        self.deadline = deadline;
        self.priority = priority;
        self.notes = notes;
        proof {
            assert(self@ =~= (TaskView {
                description: description@,
                deadline,
                priority,
                notes: notes@,
                ..old(self)@
            }));
        }
        Ok(TaskOpResult::Success)
    }

    /// Cancels the task: the status becomes `Cancelled`.
    pub fn cancel(&mut self) -> (r: Result<TaskOpResult, TaskOpResult>)
        ensures
            final(self)@ == (TaskView { status: TaskStutus::Cancelled, ..old(self)@ }),
            r matches Ok(TaskOpResult::Success),
    {
        self.status = TaskStutus::Cancelled;
        proof {
            assert(self@ =~= (TaskView { status: TaskStutus::Cancelled, ..old(self)@ }));
        }
        Ok(TaskOpResult::Success)
    }

    /// Completes the task: the status becomes `Completed`.
    pub fn complete(&mut self) -> (r: Result<TaskOpResult, TaskOpResult>)
        ensures
            final(self)@ == (TaskView { status: TaskStutus::Completed, ..old(self)@ }),
            r matches Ok(TaskOpResult::Success),
    {
        self.status = TaskStutus::Completed;
        proof {
            assert(self@ =~= (TaskView { status: TaskStutus::Completed, ..old(self)@ }));
        }
        Ok(TaskOpResult::Success)
    }

    /// Marks the task `Deleted`, addressed by identifier.
    pub fn delete_by_id(&mut self, _id: &TaskId) -> (r: Result<TaskOpResult, TaskOpResult>)
        ensures
            final(self)@ == (TaskView { status: TaskStutus::Deleted, ..old(self)@ }),
            r matches Ok(TaskOpResult::Success),
    {
        self.status = TaskStutus::Deleted;
        proof {
            assert(self@ =~= (TaskView { status: TaskStutus::Deleted, ..old(self)@ }));
        }
        Ok(TaskOpResult::Success)
    }

    /// Marks the task `Deleted`, addressed by title.
    pub fn delete_by_title(&mut self, _title: &str) -> (r: Result<TaskOpResult, TaskOpResult>)
        ensures
            final(self)@ == (TaskView { status: TaskStutus::Deleted, ..old(self)@ }),
            r matches Ok(TaskOpResult::Success),
    {
        self.status = TaskStutus::Deleted;
        proof {
            assert(self@ =~= (TaskView { status: TaskStutus::Deleted, ..old(self)@ }));
        }
        Ok(TaskOpResult::Success)
    }

    /// Requests permanent removal: succeeds only on a `Deleted` task,
    /// and never changes the task itself.
    pub fn erase(&mut self) -> (r: Result<TaskOpResult, TaskOpResult>)
        ensures
            final(self)@ == old(self)@,
            old(self)@.status == TaskStutus::Deleted ==> r matches Ok(TaskOpResult::Success),
            old(self)@.status != TaskStutus::Deleted ==> (r matches Err(TaskOpResult::Failure(m))
                && m@ == "To completely erase the task from the disk, first delete it and then request erase."@),
    {
        if self.status == TaskStutus::Deleted {
            Ok(TaskOpResult::Success)
        } else {
            Err(TaskOpResult::Failure(String::from_str(
                "To completely erase the task from the disk, first delete it and then request erase.",
            )))
        }
    }

    /// Expires the task: only a `Completed` task may expire; otherwise
    /// the status is left unchanged and the call fails.
    pub fn expire(&mut self) -> (r: Result<TaskOpResult, TaskOpResult>)
        ensures
            old(self)@.status == TaskStutus::Completed ==> final(self)@ == (TaskView {
                status: TaskStutus::Expired,
                ..old(self)@
            }) && r matches Ok(TaskOpResult::Success),
            old(self)@.status != TaskStutus::Completed ==> final(self)@ == old(self)@,
            old(self)@.status != TaskStutus::Completed ==> (r matches Err(TaskOpResult::Failure(m))
                && m@ == "To expire a task, complete it first."@),
    {
        if self.status == TaskStutus::Completed {
            self.status = TaskStutus::Expired;
            proof {
                assert(self@ =~= (TaskView { status: TaskStutus::Expired, ..old(self)@ }));
            }
            Ok(TaskOpResult::Success)
        } else {
            Err(TaskOpResult::Failure(String::from_str(
                "To expire a task, complete it first.",
            )))
        }
    }
}

impl Default for Task {
    /// A placeholder task: zero identifier, empty texts, the default
    /// enum values, and the default deadline.
    fn default() -> (r: Self)
        ensures
            r@.uuid == 0,
            r@.title == Seq::<char>::empty(),
            r@.category == TaskCategory::Personal,
            r@.description == Seq::<char>::empty(),
            r@.deadline == crate::deadline::default_deadline(),
            r@.priority == TaskPriority::Medium,
            r@.notes == Seq::<char>::empty(),
            r@.status == TaskStutus::Active,
    {
        Task {
            uuid: TaskId::from_value(0),
            title: String::new(),
            category: TaskCategory::default(),
            description: String::new(),
            deadline: Deadline::default(),
            priority: TaskPriority::default(),
            notes: String::new(),
            status: TaskStutus::default(),
        }
    }
}

} // verus!
