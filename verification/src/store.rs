//! Task records and the ordered, name-keyed store that owns them.

use vstd::prelude::*;

verus! {

/// Urgency of a task: a closed three-value enumeration.
#[derive(Clone, Copy, Debug, PartialEq, Eq, Structural)]
pub enum Priority {
    Low,
    Medium,
    High,
}

impl Priority {
    /// The fixed display string of each priority; this is also the
    /// persisted representation.
    pub open spec fn spec_str(self) -> Seq<char> {
        match self {
            Priority::Low => "Low"@,
            Priority::Medium => "Medium"@,
            Priority::High => "High"@,
        }
    }

    /// Formats the priority as its fixed display string.
    pub fn to_string(&self) -> (r: String)
        ensures
            r@ == self.spec_str(),
    {
        match self {
            Priority::Low => "Low".to_owned(),
            Priority::Medium => "Medium".to_owned(),
            Priority::High => "High".to_owned(),
        }
    }

    /// Maps the lowercased console words to a priority; any other input
    /// falls back to `Low`.
    pub fn from_input(s: &str) -> (r: Priority)
        ensures
            r == (if s@ == "medium"@ {
                Priority::Medium
            } else if s@ == "high"@ {
                Priority::High
            } else {
                Priority::Low
            }),
    {
        let owned: String = s.to_owned();
        if owned == String::from_str("medium") {
            Priority::Medium
        } else if owned == String::from_str("high") {
            Priority::High
        } else {
            Priority::Low
        }
    }
}

/// A civil wall-clock instant, held as plain year/month/day and
/// hour/minute/second fields.
#[derive(Clone, Copy, Debug, PartialEq, Eq, Structural)]
pub struct Timestamp {
    pub year: u32,
    pub month: u32,
    pub day: u32,
    pub hour: u32,
    pub minute: u32,
    pub second: u32,
}

impl Timestamp {
    /// Every field lies in its calendar range (years are kept to four
    /// digits, which the serialized form depends on).
    pub open spec fn wf(self) -> bool {
        &&& self.year <= 9999
        &&& 1 <= self.month <= 12
        &&& 1 <= self.day <= 31
        &&& self.hour <= 23
        &&& self.minute <= 59
        &&& self.second <= 59
    }

    /// Builds a timestamp, clamping each field into its calendar range;
    /// fields already in range are kept as given.
    pub fn new(year: i64, month: u32, day: u32, hour: u32, minute: u32, second: u32) -> (r:
        Timestamp)
        ensures
            r.wf(),
            0 <= year <= 9999 ==> r.year == year,
            1 <= month <= 12 ==> r.month == month,
            1 <= day <= 31 ==> r.day == day,
            hour <= 23 ==> r.hour == hour,
            minute <= 59 ==> r.minute == minute,
            second <= 59 ==> r.second == second,
    {
        Timestamp {
            year: if year < 0 {
                0
            } else if year > 9999 {
                9999
            } else {
                year as u32
            },
            month: clamp(month, 1, 12),
            day: clamp(day, 1, 31),
            hour: clamp(hour, 0, 23),
            minute: clamp(minute, 0, 59),
            second: clamp(second, 0, 59),
        }
    }

    /// Decides well-formedness at run time.
    pub fn is_wf(&self) -> (r: bool)
        ensures
            r == self.wf(),
    {
        self.year <= 9999 && 1 <= self.month && self.month <= 12 && 1 <= self.day && self.day <= 31
            && self.hour <= 23 && self.minute <= 59 && self.second <= 59
    }
}

/// Clamps `v` into the inclusive range `lo ..= hi`.
fn clamp(v: u32, lo: u32, hi: u32) -> (r: u32)
    requires
        lo <= hi,
    ensures
        lo <= r <= hi,
        lo <= v <= hi ==> r == v,
{
    if v < lo {
        lo
    } else if v > hi {
        hi
    } else {
        v
    }
}

/// One to-do record.
#[derive(Clone, Debug, PartialEq, Eq)]
pub struct Task {
    pub name: String,
    pub description: String,
    pub priority: Priority,
    pub date_created: Timestamp,
    pub date_updated: Option<Timestamp>,
}

/// The mathematical value of a [`Task`]: its strings as character
/// sequences, the rest as plain values.
pub struct TaskView {
    pub name: Seq<char>,
    pub description: Seq<char>,
    pub priority: Priority,
    pub date_created: Timestamp,
    pub date_updated: Option<Timestamp>,
}

impl View for Task {
    type V = TaskView;

    open spec fn view(&self) -> TaskView {
        TaskView {
            name: self.name@,
            description: self.description@,
            priority: self.priority,
            date_created: self.date_created,
            date_updated: self.date_updated,
        }
    }
}

/// Both timestamps of the task are well formed.
pub open spec fn wf_task(t: TaskView) -> bool {
    &&& t.date_created.wf()
    &&& match t.date_updated {
        Some(u) => u.wf(),
        None => true,
    }
}

/// All tasks in the sequence are well formed.
pub open spec fn wf_tasks(s: Seq<TaskView>) -> bool {
    forall|i: int| 0 <= i < s.len() ==> wf_task(#[trigger] s[i])
}

impl Task {
    /// Constructs a task; `date_created` is the given stamp and
    /// `date_updated` starts absent.
    pub fn new(name: String, description: String, priority: Priority, created: Timestamp) -> (r:
        Task)
        ensures
            r@ == (TaskView {
                name: name@,
                description: description@,
                priority,
                date_created: created,
                date_updated: None,
            }),
    {
        Task { name, description, priority, date_created: created, date_updated: None }
    }
}

/// Why a store operation failed.
#[derive(Clone, Debug, PartialEq, Eq)]
pub enum StoreError {
    /// No task with the given name is in the store.
    NotFound,
    /// The save target already holds a file.
    FileAlreadyExists,
    /// The load target holds no file.
    FileNotFound,
    /// The underlying read, write or create failed; carries its description.
    IoFailure(String),
    /// The persisted document could not be parsed back into tasks.
    ParseFailure,
}

/// The sequence of task values that a sequence of tasks denotes.
pub open spec fn tasks_view(s: Seq<Task>) -> Seq<TaskView> {
    s.map_values(|t: Task| t@)
}

/// Position of the first task in `s` whose name equals `name`, if any.
pub open spec fn spec_find_index(s: Seq<TaskView>, name: Seq<char>) -> Option<int>
    decreases s.len(),
{
    if s.len() == 0 {
        None
    } else if s[0].name == name {
        Some(0)
    } else {
        match spec_find_index(s.drop_first(), name) {
            Some(i) => Some(i + 1),
            None => None,
        }
    }
}

/// What `spec_find_index` returns is the first match: a position holding
/// the name with no earlier match, or nothing when no task has the name.
pub proof fn lemma_find_index_first(s: Seq<TaskView>, name: Seq<char>)
    ensures
        match spec_find_index(s, name) {
            Some(i) => 0 <= i < s.len() && s[i].name == name && (forall|k: int|
                0 <= k < i ==> (#[trigger] s[k]).name != name),
            None => forall|k: int| 0 <= k < s.len() ==> (#[trigger] s[k]).name != name,
        },
    decreases s.len(),
{
    if s.len() > 0 && s[0].name != name {
        lemma_find_index_first(s.drop_first(), name);
        assert forall|k: int| 0 <= k < s.len() implies (#[trigger] s[k]).name == s.drop_first()[
            k - 1
        ].name || k == 0 by {
            if k > 0 {
                assert(s.drop_first()[k - 1] == s[k]);
            }
        }
    }
}

/// In a store whose names are pairwise distinct, looking up the name of
/// the task at position `i` finds exactly position `i`.
pub proof fn lemma_find_index_distinct(s: Seq<TaskView>, i: int)
    requires
        forall|p: int, q: int|
            0 <= p < q < s.len() ==> (#[trigger] s[p]).name != (#[trigger] s[q]).name,
        0 <= i < s.len(),
    ensures
        spec_find_index(s, s[i].name) == Some(i),
    decreases s.len(),
{
    if i == 0 {
    } else {
        assert(s[0].name != s[i].name);
        assert forall|p: int, q: int|
            0 <= p < q < s.drop_first().len() implies (#[trigger] s.drop_first()[p]).name != (
        #[trigger] s.drop_first()[q]).name by {
            assert(s.drop_first()[p] == s[p + 1]);
            assert(s.drop_first()[q] == s[q + 1]);
        }
        assert(s.drop_first()[i - 1] == s[i]);
        lemma_find_index_distinct(s.drop_first(), i - 1);
    }
}

/// The ordered collection of tasks, keyed by name for lookup, edit and
/// removal; insertion order is the enumeration order.
pub struct TaskStore {
    tasks: Vec<Task>,
}

impl View for TaskStore {
    type V = Seq<TaskView>;

    closed spec fn view(&self) -> Seq<TaskView> {
        tasks_view(self.tasks@)
    }
}

impl TaskStore {
    /// All tasks the store holds are well formed.
    pub open spec fn wf(&self) -> bool {
        wf_tasks(self@)
    }

    /// Decides well-formedness at run time.
    pub fn is_wf(&self) -> (r: bool)
        ensures
            r == self.wf(),
    {
        tasks_all_wf(&self.tasks)
    }

    /// Creates an empty store.
    pub fn new() -> (r: TaskStore)
        ensures
            r@ == Seq::<TaskView>::empty(),
            r.wf(),
    {
        let r = TaskStore { tasks: Vec::new() };
        proof {
            assert(r@ =~= Seq::<TaskView>::empty());
        }
        r
    }

    /// Appends `task` at the end. No name-uniqueness check is made:
    /// avoiding duplicate names is the caller's responsibility.
    pub fn add(&mut self, task: Task)
        ensures
            final (self)@ == old(self)@.push(task@),
            old(self).wf() && wf_task(task@) ==> final (self).wf(),
    {
        let ghost t = task@;
        self.tasks.push(task);
        proof {
            assert(self@ =~= old(self)@.push(t));
        }
    }

    /// The tasks in insertion order, for display; the store is not changed.
    pub fn enumerate(&self) -> (r: &Vec<Task>)
        ensures
            tasks_view(r@) == self@,
    {
        &self.tasks
    }

    /// Number of tasks held.
    pub fn len(&self) -> (r: usize)
        ensures
            r == self@.len(),
    {
        self.tasks.len()
    }

    /// Position of the first task whose name equals `name` exactly
    /// (case-sensitive), or none if absent.
    pub fn find_index(&self, name: &str) -> (r: Option<usize>)
        ensures
            match r {
                Some(i) => spec_find_index(self@, name@) == Some(i as int),
                None => spec_find_index(self@, name@) is None,
            },
    {
        let owned: String = name.to_owned();
        let n = self.tasks.len();
        let mut i: usize = 0;
        while i < n
            invariant
                owned@ == name@,
                n == self@.len(),
                0 <= i <= n,
                forall|k: int| 0 <= k < i ==> (#[trigger] self@[k]).name != name@,
            decreases n - i,
        {
            if self.tasks[i].name == owned {
                proof {
                    lemma_find_index_first(self@, name@);
                    match spec_find_index(self@, name@) {
                        Some(j) => {
                            assert(j <= i);
                            assert(j >= i);
                        },
                        None => {
                            assert(self@[i as int].name == name@);
                        },
                    }
                }
                return Some(i);
            }
            i += 1;
        }
        proof {
            lemma_find_index_first(self@, name@);
        }
        None
    }

    /// Removes the first task named `name`, keeping the relative order of
    /// the remaining tasks; fails with `NotFound` and leaves the store
    /// unchanged when no task has that name.
    pub fn remove(&mut self, name: &str) -> (r: Result<String, StoreError>)
        ensures
            (match spec_find_index(old(self)@, name@) {
                Some(i) => r matches Ok(m) && m@ == "Task \""@ + name@ + "\" removed"@ && final (
                self)@ == old(self)@.remove(i),
                None => r matches Err(StoreError::NotFound) && final (self)@ == old(self)@,
            }),
            old(self).wf() ==> final (self).wf(),
    {
        match self.find_index(name) {
            Some(i) => {
                proof {
                    lemma_find_index_first(self@, name@);
                }
                self.tasks.remove(i);
                proof {
                    assert(self@ =~= old(self)@.remove(i as int));
                }
                let mut msg = String::from_str("Task \"");
                msg.append(name);
                msg.append("\" removed");
                Ok(msg)
            },
            None => Err(StoreError::NotFound),
        }
    }

    /// Overwrites name, description and priority of the first task named
    /// `name` and stamps `date_updated` with `now`; `date_created` is never
    /// altered. The success message reports the edit time. Fails with
    /// `NotFound` and leaves the store unchanged when no task has that
    /// name. The new name is not checked against the other tasks' names:
    /// avoiding collisions is the caller's responsibility.
    pub fn edit(
        &mut self,
        name: &str,
        new_name: String,
        new_description: String,
        new_priority: Priority,
        now: Timestamp,
    ) -> (r: Result<String, StoreError>)
        requires
            now.wf(),
        ensures
            (match spec_find_index(old(self)@, name@) {
                Some(i) => r matches Ok(m) && m@ == "Task \""@ + name@
                    + "\" successfully updated at "@ + crate::codec::disp_ts(now) && final (
                self)@ == old(self)@.update(
                    i,
                    TaskView {
                        name: new_name@,
                        description: new_description@,
                        priority: new_priority,
                        date_created: old(self)@[i].date_created,
                        date_updated: Some(now),
                    },
                ),
                None => r matches Err(StoreError::NotFound) && final (self)@ == old(self)@,
            }),
            old(self).wf() ==> final (self).wf(),
    {
        match self.find_index(name) {
            Some(i) => {
                proof {
                    lemma_find_index_first(self@, name@);
                }
                let created = self.tasks[i].date_created;
                let updated = Task {
                    name: new_name,
                    description: new_description,
                    priority: new_priority,
                    date_created: created,
                    date_updated: Some(now),
                };
                let ghost uv = updated@;
                self.tasks.set(i, updated);
                proof {
                    assert(self@ =~= old(self)@.update(i as int, uv));
                }
                let mut msg = String::from_str("Task \"");
                msg.append(name);
                msg.append("\" successfully updated at ");
                let stamp = now.to_display();
                msg.append(stamp.as_str());
                Ok(msg)
            },
            None => Err(StoreError::NotFound),
        }
    }

    /// Produces the persisted document for the whole store, unless the
    /// target path is already occupied: saving never overwrites, so with
    /// `file_exists` the result is `FileAlreadyExists` and nothing is
    /// written. The caller writes the returned document to the path.
    pub fn save_to_document(&self, file_exists: bool) -> (r: Result<String, StoreError>)
        requires
            self.wf(),
        ensures
            file_exists ==> r matches Err(StoreError::FileAlreadyExists),
            !file_exists ==> (r matches Ok(doc) && doc@ == crate::codec::ser_store(self@)),
    {
        if file_exists {
            Err(StoreError::FileAlreadyExists)
        } else {
            Ok(crate::codec::serialize_tasks(&self.tasks))
        }
    }

    /// Replaces the whole store with the tasks parsed from `doc` (not a
    /// merge). `doc` is the read file's text, or nothing when no file is
    /// at the path, which is `FileNotFound`; a malformed document is a
    /// `ParseFailure`. On any failure the store is left unchanged.
    pub fn load_from_document(&mut self, doc: Option<&String>) -> (r: Result<
        String,
        StoreError,
    >)
        ensures
            doc is None ==> (r matches Err(StoreError::FileNotFound) && final (self)@ == old(
                self,
            )@),
            (doc matches Some(d) ==> (match crate::codec::sp_doc(d@) {
                Some(ts) => if wf_tasks(ts) {
                    r matches Ok(m) && m@ == "Data read successfully"@ && final (self)@ == ts
                        && final (self).wf()
                } else {
                    r matches Err(StoreError::ParseFailure) && final (self)@ == old(self)@
                },
                None => r matches Err(StoreError::ParseFailure) && final (self)@ == old(self)@,
            })),
    {
        match doc {
            None => Err(StoreError::FileNotFound),
            Some(d) => {
                match crate::codec::parse_document(d.as_str()) {
                    Ok(v) => {
                        if tasks_all_wf(&v) {
                            self.tasks = v;
                            Ok(String::from_str("Data read successfully"))
                        } else {
                            Err(StoreError::ParseFailure)
                        }
                    },
                    Err(e) => Err(e),
                }
            },
        }
    }
}

/// Decides `wf_tasks` over the views of the given tasks at run time.
fn tasks_all_wf(v: &Vec<Task>) -> (r: bool)
    ensures
        r == wf_tasks(tasks_view(v@)),
{
    let mut i: usize = 0;
    while i < v.len()
        invariant
            0 <= i <= v@.len(),
            forall|k: int| 0 <= k < i ==> wf_task(#[trigger] tasks_view(v@)[k]),
        decreases v@.len() - i,
    {
        let created_ok = v[i].date_created.is_wf();
        let updated_ok = match &v[i].date_updated {
            Some(u) => u.is_wf(),
            None => true,
        };
        if !(created_ok && updated_ok) {
            proof {
                assert(!wf_task(tasks_view(v@)[i as int]));
            }
            return false;
        }
        i += 1;
    }
    true
}

} // verus!
