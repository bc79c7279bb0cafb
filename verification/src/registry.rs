//! The persistence port and the task registry: load options, the
//! file-backed partition codec, and the in-memory, identifier-keyed
//! task store.

use vstd::prelude::*;
use vstd::string::*;
use crate::codec::{encode_task, skipped_msgs, decoded_tasks};
use crate::id::TaskId;
use crate::task::{EnumValues, Task, TaskCategory, TaskStutus, TaskView};

verus! {

// ---------------------------------------------------------------------------
// Load configuration
// ---------------------------------------------------------------------------

/// Where tasks are persisted: a directory of partition files, or a
/// database named by a connection string (not available yet).
pub enum LoadSource {
    FilesDirectoryPath(String),
    Database(String),
}

/// The description of a load source, as used in error messages.
pub open spec fn source_desc_chars(s: LoadSource) -> Seq<char> {
    match s {
        LoadSource::FilesDirectoryPath(p) => "Files Directory Path: "@ + p@,
        LoadSource::Database(d) => "Database: "@ + d@,
    }
}

impl LoadSource {
    /// Renders the description of this source.
    pub fn describe(&self) -> (r: String)
        ensures
            r@ == source_desc_chars(*self),
    {
        match self {
            LoadSource::FilesDirectoryPath(p) => {
                let mut r = String::from_str("Files Directory Path: ");
                r.append(p.as_str());
                r
            },
            LoadSource::Database(d) => {
                let mut r = String::from_str("Database: ");
                r.append(d.as_str());
                r
            },
        }
    }
}

/// What a load materializes: the source, and which non-active status
/// partitions to include (active tasks are always loaded).
pub struct LoadOptions {
    pub load_source: LoadSource,
    pub load_cancelled: bool,
    pub load_expired: bool,
    pub load_completed: bool,
    pub load_deleted: bool,
}

impl LoadOptions {
    /// Options for a source, with every optional partition excluded.
    pub fn new(source: LoadSource) -> (r: Self)
        ensures
            r.load_source == source,
            !r.load_cancelled && !r.load_expired && !r.load_completed && !r.load_deleted,
    {
        LoadOptions {
            load_source: source,
            load_cancelled: false,
            load_expired: false,
            load_completed: false,
            load_deleted: false,
        }
    }
}

impl Default for LoadOptions {
    /// The current directory as a file source, optional partitions
    /// excluded.
    fn default() -> (r: Self)
        ensures
            (r.load_source matches LoadSource::FilesDirectoryPath(p) && p@ == "."@),
            !r.load_cancelled && !r.load_expired && !r.load_completed && !r.load_deleted,
    {
        LoadOptions {
            load_source: LoadSource::FilesDirectoryPath(String::from_str(".")),
            load_cancelled: false,
            load_expired: false,
            load_completed: false,
            load_deleted: false,
        }
    }
}

/// The statuses a load materializes, in a fixed order: active first,
/// then each selected optional partition.
pub open spec fn selected_statuses_spec(o: &LoadOptions) -> Seq<TaskStutus> {
    seq![TaskStutus::Active]
        + (if o.load_cancelled { seq![TaskStutus::Cancelled] } else { Seq::empty() })
        + (if o.load_expired { seq![TaskStutus::Expired] } else { Seq::empty() })
        + (if o.load_completed { seq![TaskStutus::Completed] } else { Seq::empty() })
        + (if o.load_deleted { seq![TaskStutus::Deleted] } else { Seq::empty() })
}

/// Returns the statuses a load with these options materializes.
pub fn selected_statuses(options: &LoadOptions) -> (r: Vec<TaskStutus>)
    ensures
        r@ == selected_statuses_spec(options),
{
    let mut r: Vec<TaskStutus> = Vec::new();
    r.push(TaskStutus::Active);
    if options.load_cancelled {
        r.push(TaskStutus::Cancelled);
    }
    if options.load_expired {
        r.push(TaskStutus::Expired);
    }
    if options.load_completed {
        r.push(TaskStutus::Completed);
    }
    if options.load_deleted {
        r.push(TaskStutus::Deleted);
    }
    proof {
        assert(r@ =~= selected_statuses_spec(options));
    }
    r
}

// ---------------------------------------------------------------------------
// Partition file contents
// ---------------------------------------------------------------------------

/// The position of the first newline in `s`, or `s.len()` when there is
/// none.
pub open spec fn find_nl(s: Seq<char>) -> nat
    decreases s.len(),
{
    if s.len() == 0 {
        0
    } else if s[0] == '\n' {
        0
    } else {
        1 + find_nl(s.subrange(1, s.len() as int))
    }
}

pub proof fn lemma_find_nl(s: Seq<char>)
    ensures
        find_nl(s) <= s.len(),
        find_nl(s) < s.len() ==> s[find_nl(s) as int] == '\n',
        forall|j: int| 0 <= j < find_nl(s) ==> s[j] != '\n',
    decreases s.len(),
{
    if s.len() == 0 {
    } else if s[0] == '\n' {
    } else {
        let t = s.subrange(1, s.len() as int);
        lemma_find_nl(t);
        assert(forall|j: int| 1 <= j < find_nl(s) ==> s[j] == t[j - 1]);
    }
}

/// A line without a trailing carriage return.
pub open spec fn clean_line(l: Seq<char>) -> Seq<char> {
    if l.len() > 0 && l[l.len() - 1] == '\r' {
        l.subrange(0, l.len() - 1)
    } else {
        l
    }
}

/// The non-blank lines of a partition file, split on newlines, each
/// without a trailing carriage return.
pub open spec fn content_lines(s: Seq<char>) -> Seq<Seq<char>>
    decreases s.len(),
{
    let f = find_nl(s);
    if f < s.len() {
        let line = clean_line(s.subrange(0, f as int));
        let rest = content_lines(s.subrange(f as int + 1, s.len() as int));
        if line.len() > 0 {
            seq![line] + rest
        } else {
            rest
        }
    } else {
        let line = clean_line(s);
        if line.len() > 0 {
            seq![line]
        } else {
            Seq::empty()
        }
    }
}

/// Finds the first newline of `t`.
fn find_nl_exec(t: &str) -> (r: usize)
    ensures
        r as nat == find_nl(t@),
{
    let n = t.unicode_len();
    let mut i: usize = 0;
    while i < n
        invariant
            i <= n,
            n == t@.len(),
            forall|j: int| 0 <= j < i ==> t@[j] != '\n',
        decreases n - i,
    {
        if t.get_char(i) == '\n' {
            proof {
                lemma_find_nl(t@);
                let f = find_nl(t@);
                if f < i {
                    assert(t@[f as int] == '\n');
                }
                if f > i {
                    assert(t@[i as int] != '\n');
                }
            }
            return i;
        }
        i = i + 1;
    }
    proof {
        lemma_find_nl(t@);
        if find_nl(t@) < n {
            assert(t@[find_nl(t@) as int] == '\n');
        }
    }
    n
}

/// Drops a trailing carriage return from a line.
fn clean_line_exec(l: &str) -> (r: String)
    ensures
        r@ == clean_line(l@),
{
    let n = l.unicode_len();
    if n > 0 && l.get_char(n - 1) == '\r' {
        String::from_str(l.substring_char(0, n - 1))
    } else {
        String::from_str(l)
    }
}

/// Splits a partition file into its non-blank, cleaned lines.
pub fn content_lines_exec(s: &str) -> (lines: Vec<String>)
    ensures
        lines@.map_values(|l: String| l@) == content_lines(s@),
{
    let mut lines: Vec<String> = Vec::new();
    let mut rest = String::from_str(s);
    loop
        invariant
            content_lines(s@) =~= lines@.map_values(|l: String| l@) + content_lines(rest@),
        decreases rest@.len(),
    {
        let f = find_nl_exec(rest.as_str());
        let n = rest.as_str().unicode_len();
        let ghost prev = rest@;
        if f < n {
            let head = clean_line_exec(rest.as_str().substring_char(0, f));
            let tail = String::from_str(rest.as_str().substring_char(f + 1, n));
            proof {
                lemma_find_nl(prev);
            }
            if head.unicode_len() > 0 {
                proof {
                    lemma_map_line_push(lines@, head);
                }
                lines.push(head);
            }
            rest = tail;
            proof {
                assert(content_lines(s@) =~= lines@.map_values(|l: String| l@)
                    + content_lines(rest@));
            }
        } else {
            let head = clean_line_exec(rest.as_str());
            proof {
                lemma_find_nl(prev);
            }
            if head.unicode_len() > 0 {
                proof {
                    lemma_map_line_push(lines@, head);
                }
                lines.push(head);
            }
            proof {
                assert(lines@.map_values(|l: String| l@) =~= content_lines(s@));
            }
            return lines;
        }
    }
}

proof fn lemma_map_line_push(v: Seq<String>, x: String)
    ensures
        (v.push(x)).map_values(|l: String| l@) =~= v.map_values(|l: String| l@).push(x@),
{
}

// ---------------------------------------------------------------------------
// The file backend
// ---------------------------------------------------------------------------

/// The fixed relative file name of a status partition.
pub open spec fn status_file_chars(st: TaskStutus) -> Seq<char> {
    match st {
        TaskStutus::Active => "active.tsk"@,
        TaskStutus::Cancelled => "cancelled.tsk"@,
        TaskStutus::Completed => "completed.tsk"@,
        TaskStutus::Deleted => "deleted.tsk"@,
        TaskStutus::Expired => "expired.tsk"@,
    }
}

/// The lines a save writes for one status partition: the records of the
/// tasks with that status, in order, one per line.
pub open spec fn partition_text(ts: Seq<TaskView>, st: TaskStutus) -> Seq<char>
    decreases ts.len(),
{
    if ts.len() == 0 {
        Seq::empty()
    } else {
        partition_text(ts.drop_last(), st) + (if ts.last().status == st {
            encode_task(ts.last()) + seq!['\n']
        } else {
            Seq::empty()
        })
    }
}

/// The file-based persistence backend: it reads and writes one
/// record-per-line partition file per status under a base directory.
/// The surrounding application performs the actual file input and
/// output; every decision and every byte of content is computed here.
pub struct FileLoadHandler {
    file_path: String,
}

impl FileLoadHandler {
    /// The base directory this backend serves.
    pub closed spec fn path_spec(&self) -> Seq<char> {
        self.file_path@
    }

    /// A backend rooted at the given directory.
    pub fn new(path: String) -> (r: Self)
        ensures
            r.path_spec() == path@,
    {
        FileLoadHandler { file_path: path }
    }

    /// The full name of the partition file for a status.
    pub fn partition_file_name(&self, status: TaskStutus) -> (r: String)
        ensures
            r@ == self.path_spec() + "/"@ + status_file_chars(status),
    {
        let mut r = self.file_path.clone();
        r.append("/");
        match status {
            TaskStutus::Active => r.append("active.tsk"),
            TaskStutus::Cancelled => r.append("cancelled.tsk"),
            TaskStutus::Completed => r.append("completed.tsk"),
            TaskStutus::Deleted => r.append("deleted.tsk"),
            TaskStutus::Expired => r.append("expired.tsk"),
        }
        r
    }

    /// Decodes one partition file's content: every line that decodes
    /// contributes a task, in file order; every line that does not is
    /// skipped and reported as a diagnostic, never failing the call.
    pub fn decode_partition(content: &str) -> (r: (Vec<Task>, Vec<String>))
        ensures
            r.0@.map_values(|t: Task| t@) == decoded_tasks(content_lines(content@)),
            r.1@.map_values(|m: String| m@) == skipped_msgs(content_lines(content@)),
    {
        let lines = content_lines_exec(content);
        let ghost lvs = lines@.map_values(|l: String| l@);
        let mut tasks: Vec<Task> = Vec::new();
        let mut diags: Vec<String> = Vec::new();
        let mut i: usize = 0;
        proof {
            assert(lvs.subrange(0, lvs.len() as int) =~= lvs);
        }
        while i < lines.len()
            invariant
                i <= lines.len(),
                lvs == lines@.map_values(|l: String| l@),
                decoded_tasks(lvs) =~= tasks@.map_values(|t: Task| t@)
                    + decoded_tasks(lvs.subrange(i as int, lvs.len() as int)),
                skipped_msgs(lvs) =~= diags@.map_values(|m: String| m@)
                    + skipped_msgs(lvs.subrange(i as int, lvs.len() as int)),
            decreases lines.len() - i,
        {
            let ghost suffix = lvs.subrange(i as int, lvs.len() as int);
            proof {
                assert(lines@[i as int]@ == lvs[i as int]);
                assert(suffix[0] == lvs[i as int]);
                assert(suffix.subrange(1, suffix.len() as int)
                    =~= lvs.subrange(i as int + 1, lvs.len() as int));
            }
            match Task::try_from(lines[i].as_str()) {
                Ok(t) => {
                    proof {
                        lemma_map_task_push(tasks@, t);
                    }
                    tasks.push(t);
                },
                Err(_errors) => {
                    let mut m = String::from_str("Skipped unparsable record: ");
                    m.append(lines[i].as_str());
                    proof {
                        lemma_map_line_push(diags@, m);
                    }
                    diags.push(m);
                },
            }
            i = i + 1;
        }
        proof {
            assert(decoded_tasks(lvs.subrange(lvs.len() as int, lvs.len() as int)).len() == 0);
            assert(skipped_msgs(lvs.subrange(lvs.len() as int, lvs.len() as int)).len() == 0);
        }
        (tasks, diags)
    }

    /// Renders one status partition: the records of the given tasks
    /// with that status, in order, one per line.
    pub fn encode_partition(tasks: &Vec<Task>, status: TaskStutus) -> (r: String)
        ensures
            r@ == partition_text(tasks@.map_values(|t: Task| t@), status),
    {
        let ghost tvs = tasks@.map_values(|t: Task| t@);
        let mut r = String::new();
        let mut i: usize = 0;
        while i < tasks.len()
            invariant
                i <= tasks.len(),
                tvs == tasks@.map_values(|t: Task| t@),
                r@ == partition_text(tvs.subrange(0, i as int), status),
            decreases tasks.len() - i,
        {
            let ghost prefix = tvs.subrange(0, i as int);
            proof {
                assert(tasks@[i as int]@ == tvs[i as int]);
                let next = tvs.subrange(0, i as int + 1);
                assert(next.drop_last() =~= prefix);
                assert(next.last() == tvs[i as int]);
            }
            if tasks[i].status() == status {
                let line = tasks[i].to_record();
                r.append(line.as_str());
                r.append("\n");
                proof {
                    reveal_strlit("\n");
                    assert(r@ =~= partition_text(tvs.subrange(0, i as int + 1), status));
                }
            }
            i = i + 1;
        }
        proof {
            assert(tvs.subrange(0, tvs.len() as int) =~= tvs);
        }
        r
    }

    /// Renders every status partition for a save: the file name and the
    /// content of each, in the statuses' declaration order.
    pub fn save_tasks(&self, tasks: &Vec<Task>) -> (r: Vec<(String, String)>)
        ensures
            r@.len() == 5,
            forall|i: int| 0 <= i < 5 ==> (#[trigger] r@[i]).0@ == self.path_spec() + "/"@
                + status_file_chars(TaskStutus::values_spec()[i]),
            forall|i: int| 0 <= i < 5 ==> (#[trigger] r@[i]).1@ == partition_text(
                tasks@.map_values(|t: Task| t@),
                TaskStutus::values_spec()[i],
            ),
    {
        let mut r: Vec<(String, String)> = Vec::new();
        let statuses = TaskStutus::values();
        let mut i: usize = 0;
        while i < statuses.len()
            invariant
                statuses@ == TaskStutus::values_spec(),
                i <= 5,
                statuses@.len() == 5,
                r@.len() == i,
                forall|k: int| 0 <= k < i ==> (#[trigger] r@[k]).0@ == self.path_spec() + "/"@
                    + status_file_chars(statuses@[k]),
                forall|k: int| 0 <= k < i ==> (#[trigger] r@[k]).1@ == partition_text(
                    tasks@.map_values(|t: Task| t@),
                    statuses@[k],
                ),
            decreases 5 - i,
        {
            let st = statuses[i];
            let name = self.partition_file_name(st);
            let content = FileLoadHandler::encode_partition(tasks, st);
            r.push((name, content));
            i = i + 1;
        }
        r
    }
}

/// The tasks a load yields, partitioned by category: the authoritative
/// shape a backend hands back to the registry.
pub struct LoadResults {
    pub tasks: Vec<Task>,
}

impl LoadResults {
    /// Wraps the loaded tasks.
    pub fn new(tasks: Vec<Task>) -> (r: Self)
        ensures
            r.tasks@ == tasks@,
    {
        LoadResults { tasks }
    }
}

proof fn lemma_map_task_push(v: Seq<Task>, x: Task)
    ensures
        (v.push(x)).map_values(|t: Task| t@) =~= v.map_values(|t: Task| t@).push(x@),
{
}

// ---------------------------------------------------------------------------
// The task registry
// ---------------------------------------------------------------------------

/// The errors a registry operation reports.
#[derive(Debug)]
pub enum RegistryError {
    /// A persistence port was constructed with a source it cannot serve.
    Config(String),
    /// A required partition file is missing.
    Io(String),
    /// An operation requires prior setup that was not performed.
    Precondition(String),
    /// An entity operation was invoked in a state that forbids it.
    State(String),
}

impl RegistryError {
    /// The human-readable reason carried by the error.
    pub fn message(&self) -> (r: &str)
        ensures
            match self {
                RegistryError::Config(m) => r@ == m@,
                RegistryError::Io(m) => r@ == m@,
                RegistryError::Precondition(m) => r@ == m@,
                RegistryError::State(m) => r@ == m@,
            },
    {
        match self {
            RegistryError::Config(m) => m.as_str(),
            RegistryError::Io(m) => m.as_str(),
            RegistryError::Precondition(m) => m.as_str(),
            RegistryError::State(m) => m.as_str(),
        }
    }
}

/// The key a task is stored under: its category and its identifier.
pub open spec fn task_key(t: TaskView) -> (TaskCategory, u128) {
    (t.category, t.uuid)
}

/// The map a sequence of tasks denotes; a later entry with the same key
/// overwrites an earlier one.
pub open spec fn map_of(s: Seq<TaskView>) -> Map<(TaskCategory, u128), TaskView>
    decreases s.len(),
{
    if s.len() == 0 {
        Map::empty()
    } else {
        map_of(s.drop_last()).insert(task_key(s.last()), s.last())
    }
}

/// No two tasks share a category and an identifier.
pub open spec fn distinct_keys(s: Seq<TaskView>) -> bool {
    forall|i: int, j: int| 0 <= i < j < s.len()
        ==> task_key(#[trigger] s[i]) != task_key(#[trigger] s[j])
}

/// Every stored task is in the map, under its key.
pub proof fn lemma_map_of_index(s: Seq<TaskView>, i: int)
    requires
        distinct_keys(s),
        0 <= i < s.len(),
    ensures
        map_of(s).contains_key(task_key(s[i])),
        map_of(s)[task_key(s[i])] == s[i],
    decreases s.len(),
{
    if i == s.len() - 1 {
    } else {
        let p = s.drop_last();
        assert(forall|a: int, b: int| 0 <= a < b < p.len()
            ==> task_key(#[trigger] p[a]) != task_key(#[trigger] p[b]));
        lemma_map_of_index(p, i);
        assert(task_key(s[i]) != task_key(s.last()));
    }
}

/// A key held by no stored task is not in the map.
pub proof fn lemma_map_of_absent(s: Seq<TaskView>, k: (TaskCategory, u128))
    requires
        forall|i: int| 0 <= i < s.len() ==> task_key(#[trigger] s[i]) != k,
    ensures
        !map_of(s).contains_key(k),
    decreases s.len(),
{
    if s.len() > 0 {
        let p = s.drop_last();
        assert(forall|i: int| 0 <= i < p.len() ==> task_key(#[trigger] p[i]) != k);
        lemma_map_of_absent(p, k);
    }
}

/// Removing the one task that holds a key is a map remove.
pub proof fn lemma_map_of_remove(s: Seq<TaskView>, i: int)
    requires
        distinct_keys(s),
        0 <= i < s.len(),
    ensures
        map_of(s.remove(i)) =~= map_of(s).remove(task_key(s[i])),
        distinct_keys(s.remove(i)),
    decreases s.len(),
{
    let u = s.remove(i);
    let p = s.drop_last();
    assert(forall|a: int, b: int| 0 <= a < b < p.len()
        ==> task_key(#[trigger] p[a]) != task_key(#[trigger] p[b]));
    if i == s.len() - 1 {
        assert(u =~= p);
        assert(forall|j: int| 0 <= j < p.len() ==> task_key(#[trigger] p[j]) != task_key(s[i]));
        lemma_map_of_absent(p, task_key(s[i]));
        assert(map_of(s).remove(task_key(s[i]))
            =~= map_of(p).insert(task_key(s.last()), s.last()).remove(task_key(s[i])));
    } else {
        lemma_map_of_remove(p, i);
        assert(u.drop_last() =~= p.remove(i));
        assert(u.last() == s.last());
        assert(map_of(u) == map_of(p.remove(i)).insert(task_key(s.last()), s.last()));
        assert(task_key(s.last()) != task_key(s[i]));
    }
    assert forall|a: int, b: int| 0 <= a < b < u.len()
        implies task_key(#[trigger] u[a]) != task_key(#[trigger] u[b]) by {
        let a0 = if a < i { a } else { a + 1 };
        let b0 = if b < i { b } else { b + 1 };
        assert(task_key(u[a]) == task_key(s[a0]));
        assert(task_key(u[b]) == task_key(s[b0]));
    }
}

/// Replacing the one task that holds a key is a map insert.
pub proof fn lemma_map_of_update(s: Seq<TaskView>, i: int, t: TaskView)
    requires
        distinct_keys(s),
        0 <= i < s.len(),
        task_key(s[i]) == task_key(t),
    ensures
        map_of(s.update(i, t)) =~= map_of(s).insert(task_key(t), t),
        distinct_keys(s.update(i, t)),
    decreases s.len(),
{
    let u = s.update(i, t);
    assert(u.last() == (if i == s.len() - 1 { t } else { s.last() }));
    if i == s.len() - 1 {
        assert(u.drop_last() =~= s.drop_last());
        assert(map_of(u) == map_of(s.drop_last()).insert(task_key(t), t));
        assert(map_of(s).insert(task_key(t), t)
            =~= map_of(s.drop_last()).insert(task_key(s.last()), s.last()).insert(task_key(t), t));
    } else {
        let p = s.drop_last();
        assert(forall|a: int, b: int| 0 <= a < b < p.len()
            ==> task_key(#[trigger] p[a]) != task_key(#[trigger] p[b]));
        lemma_map_of_update(p, i, t);
        assert(u.drop_last() =~= p.update(i, t));
        assert(task_key(s.last()) != task_key(t));
        assert(map_of(u) == map_of(p.update(i, t)).insert(task_key(s.last()), s.last()));
    }
    assert forall|a: int, b: int| 0 <= a < b < u.len()
        implies task_key(#[trigger] u[a]) != task_key(#[trigger] u[b]) by {
        assert(task_key(u[a]) == task_key(s[a]));
        assert(task_key(u[b]) == task_key(s[b]));
    }
}

/// Inserts a task into a store with distinct keys, replacing the task
/// with the same key when there is one.
#[verifier::loop_isolation(false)]
fn upsert(v: &mut Vec<Task>, task: Task)
    requires
        distinct_keys(old(v)@.map_values(|t: Task| t@)),
    ensures
        distinct_keys(final(v)@.map_values(|t: Task| t@)),
        map_of(final(v)@.map_values(|t: Task| t@))
            =~= map_of(old(v)@.map_values(|t: Task| t@)).insert(task_key(task@), task@),
{
    let ghost s0 = v@.map_values(|t: Task| t@);
    let cat = task.category();
    let idv = task.uuid().value();
    proof {
        assert(task_key(task@) == (cat, idv));
    }
    let n = v.len();
    let mut i: usize = 0;
    while i < n
        invariant
            i <= n,
            n == v.len(),
            s0 == v@.map_values(|t: Task| t@),
            distinct_keys(s0),
            task_key(task@) == (cat, idv),
            forall|j: int| 0 <= j < i ==> task_key(#[trigger] s0[j]) != (cat, idv),
        decreases n - i,
    {
        proof {
            assert(s0[i as int] == v@[i as int]@);
        }
        if v[i].category() == cat && v[i].uuid().value() == idv {
            proof {
                lemma_map_of_update(s0, i as int, task@);
            }
            let ghost vpre = v@;
            v.remove(i);
            v.insert(i, task);
            proof {
                assert(v@ =~= vpre.update(i as int, task));
                assert(v@.map_values(|t: Task| t@) =~= s0.update(i as int, task@));
            }
            return;
        }
        i = i + 1;
    }
    proof {
        lemma_map_task_push(v@, task);
        let s1 = s0.push(task@);
        assert(s1.drop_last() =~= s0);
        assert forall|a: int, b: int| 0 <= a < b < s1.len()
            implies task_key(#[trigger] s1[a]) != task_key(#[trigger] s1[b]) by {
            if b == s1.len() - 1 {
                assert(task_key(s1[a]) == task_key(s0[a]));
            }
        }
    }
    v.push(task);
}

/// The directory a file source names (or the database's connection
/// string; only used for file sources).
pub open spec fn source_path(s: LoadSource) -> Seq<char> {
    match s {
        LoadSource::FilesDirectoryPath(p) => p@,
        LoadSource::Database(d) => d@,
    }
}

/// The message reported when a selected partition file is missing.
pub open spec fn missing_file_msg(base: Seq<char>, st: TaskStutus) -> Seq<char> {
    "Missing partition file: "@ + base + "/"@ + status_file_chars(st)
}

/// The message reported when the registry is used before a load.
pub open spec fn precondition_msg() -> Seq<char> {
    "Call TaskManager.load_tasks first before adding a task"@
}

/// The message reported when erasing a task that is not `Deleted`.
pub open spec fn erase_state_msg() -> Seq<char> {
    "To completely erase the task from the disk, first delete it and then request erase."@
}

/// The message reported when erasing a task the registry does not hold.
pub open spec fn no_such_task_msg() -> Seq<char> {
    "No task with that identifier exists in that category."@
}

/// The message reported for a source no backend serves.
pub open spec fn not_available_msg(s: LoadSource) -> Seq<char> {
    source_desc_chars(s) + " : Implementation Not Available"@
}

/// The position of the first missing partition content.
pub open spec fn first_missing(ps: Seq<Option<String>>) -> int
    decreases ps.len(),
{
    if ps.len() == 0 {
        0
    } else if ps[0] is None {
        0
    } else {
        1 + first_missing(ps.subrange(1, ps.len() as int))
    }
}

proof fn lemma_first_missing(ps: Seq<Option<String>>, i: int)
    requires
        0 <= i < ps.len(),
        ps[i] is None,
        forall|j: int| 0 <= j < i ==> ps[j] is Some,
    ensures
        first_missing(ps) == i,
    decreases i,
{
    if i > 0 {
        let t = ps.subrange(1, ps.len() as int);
        assert(forall|j: int| 0 <= j < i - 1 ==> t[j] is Some);
        assert(t[i - 1] is None);
        lemma_first_missing(t, i - 1);
    }
}

/// The tasks a load materializes: each present partition's decoded
/// tasks, in partition order.
pub open spec fn loaded_tasks(ps: Seq<Option<String>>) -> Seq<TaskView>
    decreases ps.len(),
{
    if ps.len() == 0 {
        Seq::empty()
    } else {
        let head: Seq<TaskView> = if ps[0] is Some {
            decoded_tasks(content_lines(ps[0]->0@))
        } else {
            Seq::empty()
        };
        head + loaded_tasks(ps.subrange(1, ps.len() as int))
    }
}

/// The skipped-line diagnostics a load reports, in partition order.
pub open spec fn loaded_diags(ps: Seq<Option<String>>) -> Seq<Seq<char>>
    decreases ps.len(),
{
    if ps.len() == 0 {
        Seq::empty()
    } else {
        let head: Seq<Seq<char>> = if ps[0] is Some {
            skipped_msgs(content_lines(ps[0]->0@))
        } else {
            Seq::empty()
        };
        head + loaded_diags(ps.subrange(1, ps.len() as int))
    }
}

/// Absorbs a stream of tasks into a distinct-keyed store; a later task
/// with an already-seen key overwrites the earlier one.
#[verifier::loop_isolation(false)]
fn build_store(tasks: Vec<Task>) -> (store: Vec<Task>)
    ensures
        distinct_keys(store@.map_values(|t: Task| t@)),
        map_of(store@.map_values(|t: Task| t@)) =~= map_of(tasks@.map_values(|t: Task| t@)),
{
    let ghost avs = tasks@.map_values(|t: Task| t@);
    let mut all = tasks;
    let mut store: Vec<Task> = Vec::new();
    let ghost mut k: int = 0;
    proof {
        assert(all@.map_values(|t: Task| t@) =~= avs.subrange(0, avs.len() as int));
    }
    while all.len() > 0
        invariant
            0 <= k <= avs.len(),
            all@.map_values(|t: Task| t@) =~= avs.subrange(k, avs.len() as int),
            distinct_keys(store@.map_values(|t: Task| t@)),
            map_of(store@.map_values(|t: Task| t@)) =~= map_of(avs.subrange(0, k)),
        decreases all@.len(),
    {
        let ghost apre = all@;
        let t = all.remove(0);
        proof {
            assert(apre.map_values(|tt: Task| tt@) =~= avs.subrange(k, avs.len() as int));
            assert(t == apre[0]);
            assert(t@ == apre.map_values(|tt: Task| tt@)[0]);
            assert(t@ == avs[k]);
            assert(all@ =~= apre.subrange(1, apre.len() as int));
            let m1 = all@.map_values(|tt: Task| tt@);
            let m2 = avs.subrange(k + 1, avs.len() as int);
            assert(m1.len() == m2.len());
            assert forall|j: int| 0 <= j < m1.len() implies #[trigger] m1[j] == m2[j] by {
                assert(all@[j] == apre[j + 1]);
                assert(apre.map_values(|tt: Task| tt@)[j + 1] == apre[j + 1]@);
                assert(avs.subrange(k, avs.len() as int)[j + 1] == avs[k + 1 + j]);
                assert(m2[j] == avs[k + 1 + j]);
            }
            assert(all@.map_values(|tt: Task| tt@) =~= avs.subrange(k + 1, avs.len() as int));
            let next = avs.subrange(0, k + 1);
            assert(next.drop_last() =~= avs.subrange(0, k));
            assert(next.last() == avs[k]);
        }
        upsert(&mut store, t);
        proof {
            k = k + 1;
        }
    }
    proof {
        assert(avs.subrange(0, avs.len() as int) =~= avs);
    }
    store
}

/// The in-memory, authoritative task store: a map from category and
/// identifier to task, behind exactly one persistence port.
pub struct TaskManager {
    tasks: Option<Vec<Task>>,
    handler: Option<FileLoadHandler>,
}

impl TaskManager {
    /// Whether a load has succeeded.
    pub closed spec fn loaded(&self) -> bool {
        self.tasks is Some
    }

    /// The stored tasks, in insertion order.
    pub closed spec fn tasks_seq(&self) -> Seq<TaskView> {
        self.tasks->0@.map_values(|t: Task| t@)
    }

    /// The registry's content: category and identifier to task.
    pub open spec fn task_map(&self) -> Map<(TaskCategory, u128), TaskView> {
        map_of(self.tasks_seq())
    }

    /// Whether a backend has been configured by a successful load.
    pub closed spec fn has_backend(&self) -> bool {
        self.handler is Some
    }

    /// The base directory of the configured backend.
    pub closed spec fn backend_path(&self) -> Seq<char> {
        self.handler->0.path_spec()
    }

    /// The registry's invariant: stored tasks carry distinct keys.
    pub open spec fn wf(&self) -> bool {
        self.loaded() ==> distinct_keys(self.tasks_seq())
    }

    /// A registry with no load performed and no backend configured.
    pub fn new() -> (r: Self)
        ensures
            !r.loaded(),
            !r.has_backend(),
            r.wf(),
    {
        TaskManager { tasks: None, handler: None }
    }

    /// The persistence port the registry owns, once a load has
    /// configured one; the registry is its sole owner.
    pub fn backend(&self) -> (r: Option<&FileLoadHandler>)
        ensures
            match r {
                Some(h) => self.has_backend() && h.path_spec() == self.backend_path(),
                None => !self.has_backend(),
            },
    {
        match &self.handler {
            Some(h) => Some(h),
            None => None,
        }
    }

    /// Whether a load has succeeded.
    pub fn is_loaded(&self) -> (r: bool)
        ensures
            r == self.loaded(),
    {
        self.tasks.is_some()
    }

    /// Replaces the in-memory map with what the partitions hold.
    ///
    /// The caller reads the partition file contents named by
    /// `selected_statuses`, in that order; a missing file is `None`.
    /// On any failure — a source no backend serves, or a missing
    /// selected file — the previous in-memory state is left unchanged.
    /// On success the diagnostics for every skipped line are returned.
    #[verifier::loop_isolation(false)]
    #[verifier::rlimit(100)]
    pub fn load_tasks(&mut self, options: &LoadOptions, partitions: &Vec<Option<String>>) -> (r:
        Result<Vec<String>, RegistryError>)
        requires
            old(self).wf(),
            partitions@.len() == selected_statuses_spec(options).len(),
        ensures
            final(self).wf(),
            match r {
                Ok(diags) => {
                    &&& options.load_source matches LoadSource::FilesDirectoryPath(..)
                    &&& (forall|i: int| 0 <= i < partitions@.len()
                        ==> (#[trigger] partitions@[i]) is Some)
                    &&& final(self).loaded()
                    &&& final(self).has_backend()
                    &&& final(self).backend_path() == source_path(options.load_source)
                    &&& final(self).task_map() == map_of(loaded_tasks(partitions@))
                    &&& diags@.map_values(|m: String| m@) == loaded_diags(partitions@)
                },
                Err(e) => {
                    &&& final(self).loaded() == old(self).loaded()
                    &&& final(self).task_map() == old(self).task_map()
                    &&& match e {
                        RegistryError::Config(m) => {
                            &&& options.load_source matches LoadSource::Database(..)
                            &&& m@ == not_available_msg(options.load_source)
                        },
                        RegistryError::Io(m) => {
                            &&& options.load_source matches LoadSource::FilesDirectoryPath(..)
                            &&& (exists|i: int| 0 <= i < partitions@.len()
                                && (#[trigger] partitions@[i]) is None)
                            &&& m@ == missing_file_msg(
                                source_path(options.load_source),
                                selected_statuses_spec(options)[first_missing(partitions@)],
                            )
                        },
                        RegistryError::Precondition(..) => false,
                        RegistryError::State(..) => false,
                    }
                },
            },
    {
        let path = match &options.load_source {
            LoadSource::FilesDirectoryPath(p) => p.clone(),
            LoadSource::Database(_) => {
                let mut m = options.load_source.describe();
                m.append(" : Implementation Not Available");
                return Err(RegistryError::Config(m));
            },
        };
        let statuses = selected_statuses(options);
        let handler = FileLoadHandler::new(path);
        let mut all: Vec<Task> = Vec::new();
        let mut diags: Vec<String> = Vec::new();
        let mut i: usize = 0;
        proof {
            assert(partitions@.subrange(0, partitions@.len() as int) =~= partitions@);
        }
        while i < partitions.len()
            invariant
                i <= partitions@.len(),
                partitions@.len() == statuses@.len(),
                statuses@ == selected_statuses_spec(options),
                handler.path_spec() == source_path(options.load_source),
                forall|j: int| 0 <= j < i ==> (#[trigger] partitions@[j]) is Some,
                loaded_tasks(partitions@) =~= all@.map_values(|t: Task| t@)
                    + loaded_tasks(partitions@.subrange(i as int, partitions@.len() as int)),
                loaded_diags(partitions@) =~= diags@.map_values(|m: String| m@)
                    + loaded_diags(partitions@.subrange(i as int, partitions@.len() as int)),
            decreases partitions@.len() - i,
        {
            let ghost suffix = partitions@.subrange(i as int, partitions@.len() as int);
            proof {
                assert(suffix[0] == partitions@[i as int]);
                assert(suffix.subrange(1, suffix.len() as int)
                    =~= partitions@.subrange(i as int + 1, partitions@.len() as int));
            }
            match &partitions[i] {
                Some(content) => {
                    let (mut ts, mut ds) = FileLoadHandler::decode_partition(content.as_str());
                    proof {
                        lemma_map_concat_task(all@, ts@);
                        lemma_map_concat_line(diags@, ds@);
                    }
                    all.append(&mut ts);
                    diags.append(&mut ds);
                },
                None => {
                    let name = handler.partition_file_name(statuses[i]);
                    let mut m = String::from_str("Missing partition file: ");
                    m.append(name.as_str());
                    proof {
                        lemma_first_missing(partitions@, i as int);
                    }
                    return Err(RegistryError::Io(m));
                },
            }
            i = i + 1;
        }
        let ghost avs = all@.map_values(|t: Task| t@);
        proof {
            assert(loaded_tasks(partitions@.subrange(partitions@.len() as int,
                partitions@.len() as int)).len() == 0);
            assert(loaded_diags(partitions@.subrange(partitions@.len() as int,
                partitions@.len() as int)).len() == 0);
            assert(avs =~= loaded_tasks(partitions@));
            assert(diags@.map_values(|m: String| m@) =~= loaded_diags(partitions@));
        }
        let store = build_store(all);
        self.tasks = Some(store);
        self.handler = Some(handler);
        Ok(diags)
    }

    /// Inserts a task under its category, keyed by its identifier; a
    /// task with the same category and identifier is overwritten.
    /// Fails, leaving the map untouched, when no load has happened yet.
    pub fn add_task(&mut self, task: Task) -> (r: Result<(), RegistryError>)
        requires
            old(self).wf(),
        ensures
            final(self).wf(),
            final(self).loaded() == old(self).loaded(),
            old(self).loaded() ==> (r is Ok && final(self).task_map()
                == old(self).task_map().insert(task_key(task@), task@)),
            !old(self).loaded() ==> (r matches Err(RegistryError::Precondition(m))
                && m@ == precondition_msg()
                && final(self).task_map() == old(self).task_map()),
    {
        if self.tasks.is_some() {
            let mut v = self.tasks.take().unwrap();
            upsert(&mut v, task);
            self.tasks = Some(v);
            Ok(())
        } else {
            Err(RegistryError::Precondition(String::from_str(
                "Call TaskManager.load_tasks first before adding a task",
            )))
        }
    }

    /// Looks a task up by category and identifier.
    #[verifier::loop_isolation(false)]
    pub fn get_task(&self, category: TaskCategory, id: &TaskId) -> (r: Option<&Task>)
        requires
            self.wf(),
        ensures
            match r {
                Some(t) => self.loaded() && self.task_map().contains_key((category, id@))
                    && t@ == self.task_map()[(category, id@)],
                None => !self.loaded() || !self.task_map().contains_key((category, id@)),
            },
    {
        match &self.tasks {
            None => None,
            Some(v) => {
                let ghost s = v@.map_values(|t: Task| t@);
                let mut i: usize = 0;
                while i < v.len()
                    invariant
                        i <= v.len(),
                        s == v@.map_values(|t: Task| t@),
                        distinct_keys(s),
                        forall|j: int| 0 <= j < i ==> task_key(#[trigger] s[j]) != (category, id@),
                    decreases v.len() - i,
                {
                    proof {
                        assert(s[i as int] == v@[i as int]@);
                    }
                    if v[i].category() == category && v[i].uuid().value() == id.value() {
                        proof {
                            lemma_map_of_index(s, i as int);
                        }
                        return Some(&v[i]);
                    }
                    i = i + 1;
                }
                proof {
                    lemma_map_of_absent(s, (category, id@));
                }
                None
            },
        }
    }

    /// Permanently removes a task from the registry's live view, and so
    /// from the partitions a following save writes. Only a task that
    /// has reached `Deleted` may be erased.
    #[verifier::loop_isolation(false)]
    pub fn erase_task(&mut self, category: TaskCategory, id: &TaskId) -> (r:
        Result<(), RegistryError>)
        requires
            old(self).wf(),
        ensures
            final(self).wf(),
            final(self).loaded() == old(self).loaded(),
            !old(self).loaded() ==> (r matches Err(RegistryError::Precondition(m))
                && m@ == precondition_msg()
                && final(self).task_map() == old(self).task_map()),
            old(self).loaded() ==> match r {
                Ok(()) => {
                    &&& old(self).task_map().contains_key((category, id@))
                    &&& old(self).task_map()[(category, id@)].status == TaskStutus::Deleted
                    &&& final(self).task_map() == old(self).task_map().remove((category, id@))
                },
                Err(RegistryError::State(m)) => {
                    &&& final(self).task_map() == old(self).task_map()
                    &&& (old(self).task_map().contains_key((category, id@))
                        ==> (old(self).task_map()[(category, id@)].status != TaskStutus::Deleted
                            && m@ == erase_state_msg()))
                    &&& (!old(self).task_map().contains_key((category, id@))
                        ==> m@ == no_such_task_msg())
                },
                _ => false,
            },
    {
        if !self.tasks.is_some() {
            return Err(RegistryError::Precondition(String::from_str(
                "Call TaskManager.load_tasks first before adding a task",
            )));
        }
        let mut v = self.tasks.take().unwrap();
        let ghost s = v@.map_values(|t: Task| t@);
        let mut i: usize = 0;
        let n = v.len();
        while i < n
            invariant
                i <= n,
                n == v.len(),
                s == v@.map_values(|t: Task| t@),
                forall|j: int| 0 <= j < i ==> task_key(#[trigger] s[j]) != (category, id@),
            decreases n - i,
        {
            proof {
                assert(s[i as int] == v@[i as int]@);
            }
            if v[i].category() == category && v[i].uuid().value() == id.value() {
                proof {
                    lemma_map_of_index(s, i as int);
                }
                if v[i].status() == TaskStutus::Deleted {
                    let ghost vpre = v@;
                    v.remove(i);
                    proof {
                        lemma_map_of_remove(s, i as int);
                        assert(v@.map_values(|t: Task| t@) =~= s.remove(i as int));
                    }
                    self.tasks = Some(v);
                    return Ok(());
                } else {
                    self.tasks = Some(v);
                    return Err(RegistryError::State(String::from_str(
                        "To completely erase the task from the disk, first delete it and then request erase.",
                    )));
                }
            }
            i = i + 1;
        }
        proof {
            lemma_map_of_absent(s, (category, id@));
        }
        self.tasks = Some(v);
        Err(RegistryError::State(String::from_str(
            "No task with that identifier exists in that category.",
        )))
    }

    /// How many tasks the registry holds.
    pub fn task_count(&self) -> (r: usize)
        ensures
            self.loaded() ==> r == self.tasks_seq().len(),
            !self.loaded() ==> r == 0,
    {
        match &self.tasks {
            None => 0,
            Some(v) => v.len(),
        }
    }
}

proof fn lemma_map_concat_task(a: Seq<Task>, b: Seq<Task>)
    ensures
        (a + b).map_values(|t: Task| t@) =~= a.map_values(|t: Task| t@)
            + b.map_values(|t: Task| t@),
{
}

proof fn lemma_map_concat_line(a: Seq<String>, b: Seq<String>)
    ensures
        (a + b).map_values(|m: String| m@) =~= a.map_values(|m: String| m@)
            + b.map_values(|m: String| m@),
{
}

} // verus!
