//! The in-memory task store: an ordered, mutable collection of tasks with
//! append, pop-last, case-insensitive find and remove, and clear.

use crate::codec::{deserialize, serialize_tasks, spec_deserialize, spec_serialize, ParseError};
use crate::task::{Task, TaskView};
use vstd::prelude::*;

verus! {

/// The lowercase folding of a character sequence, as `str::to_lowercase`
/// computes it; it depends on the characters alone.
pub uninterp spec fn lower_of(s: Seq<char>) -> Seq<char>;

/// Relies on `str::to_lowercase`: the result depends on the characters of
/// the input alone.
#[verifier::external_body]
fn lowercase(s: &str) -> (r: String)
    ensures
        r@ == lower_of(s@),
{
    s.to_lowercase()
}

/// Failure of a removal: no task of the store matches the given name
/// case-insensitively.
#[derive(Debug)]
pub struct NotFoundError {
    pub name: String,
}

/// The index of the first task whose lowercased name equals the lowercased
/// key, or `None` if no task matches.
pub open spec fn spec_find(tasks: Seq<TaskView>, name: Seq<char>) -> Option<int>
    decreases tasks.len(),
{
    if tasks.len() == 0 {
        None
    } else if lower_of(tasks[0].name) == lower_of(name) {
        Some(0int)
    } else {
        match spec_find(tasks.skip(1), name) {
            Some(i) => Some(i + 1),
            None => None,
        }
    }
}

/// What `spec_find` returns, said directly: a found index is in range, its
/// task matches, no earlier task matches; `None` means no task matches.
pub proof fn lemma_spec_find_characterization(tasks: Seq<TaskView>, name: Seq<char>)
    ensures
        match spec_find(tasks, name) {
            Some(i) => {
                &&& 0 <= i < tasks.len()
                &&& lower_of(tasks[i].name) == lower_of(name)
                &&& forall|j: int| 0 <= j < i ==> lower_of(tasks[j].name) != lower_of(name)
            },
            None => forall|j: int|
                0 <= j < tasks.len() ==> lower_of(tasks[j].name) != lower_of(name),
        },
    decreases tasks.len(),
{
    if tasks.len() > 0 {
        lemma_spec_find_characterization(tasks.skip(1), name);
        assert forall|j: int| 1 <= j < tasks.len() implies tasks.skip(1)[j - 1] == tasks[j] by {}
    }
}

/// An ordered, mutable collection of task records. Insertion order is
/// display order; duplicate names are allowed, and lookups return the first
/// case-insensitive match.
pub struct TaskManager {
    pub tasks: Vec<Task>,
}

impl View for TaskManager {
    type V = Seq<TaskView>;

    open spec fn view(&self) -> Seq<TaskView> {
        self.tasks@.map_values(|t: Task| t@)
    }
}

impl TaskManager {
    /// Creates an empty store.
    pub fn new() -> (r: TaskManager)
        ensures
            r@ == Seq::<TaskView>::empty(),
    {
        let r = TaskManager { tasks: Vec::new() };
        proof {
            assert(r@ =~= Seq::<TaskView>::empty());
        }
        r
    }

    /// The number of tasks in the store.
    pub fn len(&self) -> (r: usize)
        ensures
            r == self@.len(),
    {
        self.tasks.len()
    }

    /// Appends a task at the end; no uniqueness check is made.
    pub fn push(&mut self, task: Task)
        ensures
            final(self)@ == old(self)@.push(task@),
    {
        self.tasks.push(task);
        proof {
            assert(self@ =~= old(self)@.push(task@));
        }
    }

    /// Removes and returns the last-inserted task, or `None` on an empty
    /// store.
    pub fn pop(&mut self) -> (r: Option<Task>)
        ensures
            old(self)@.len() == 0 ==> r is None && final(self)@ == old(self)@,
            old(self)@.len() > 0 ==> match r {
                Some(t) => t@ == old(self)@.last() && final(self)@ == old(self)@.drop_last(),
                None => false,
            },
    {
        let r = self.tasks.pop();
        proof {
            if old(self)@.len() > 0 {
                assert(self@ =~= old(self)@.drop_last());
            } else {
                assert(self@ =~= old(self)@);
            }
        }
        r
    }

    /// The index of the first task whose name equals `name`
    /// case-insensitively, in insertion order, or `None` if no task matches.
    pub fn find(&self, name: &str) -> (r: Option<usize>)
        ensures
            match r {
                Some(i) => spec_find(self@, name@) == Some(i as int),
                None => spec_find(self@, name@) is None,
            },
    {
        let key: String = lowercase(name);
        let n: usize = self.tasks.len();
        let mut i: usize = 0;
        while i < n
            invariant
                i <= n,
                n == self@.len(),
                self@ == self.tasks@.map_values(|t: Task| t@),
                key@ == lower_of(name@),
                forall|j: int| 0 <= j < i ==> lower_of(self@[j].name) != lower_of(name@),
            decreases n - i,
        {
            let cand: String = lowercase(self.tasks[i].name.as_str());
            if cand == key {
                proof {
                    lemma_spec_find_prefix_match(self@, name@, i as int);
                }
                return Some(i);
            }
            i = i + 1;
        }
        proof {
            lemma_spec_find_no_match(self@, name@);
        }
        None
    }

    /// Removes and returns the first task matching `name`
    /// case-insensitively; fails with `NotFoundError` carrying the name, the
    /// store unchanged, when no task matches.
    pub fn remove(&mut self, name: &str) -> (r: Result<Task, NotFoundError>)
        ensures
            match r {
                Ok(t) => {
                    &&& spec_find(old(self)@, name@) matches Some(i) && t@ == old(self)@[i]
                        && final(self)@ == old(self)@.remove(i)
                },
                Err(e) => {
                    &&& spec_find(old(self)@, name@) is None
                    &&& final(self)@ == old(self)@
                    &&& e.name@ == name@
                },
            },
    {
        match self.find(name) {
            Some(index) => {
                proof {
                    lemma_spec_find_characterization(old(self)@, name@);
                }
                let t = self.tasks.remove(index);
                proof {
                    assert(self@ =~= old(self)@.remove(index as int));
                }
                Ok(t)
            },
            None => Err(NotFoundError { name: name.to_owned() }),
        }
    }

    /// Empties the store unconditionally.
    pub fn clear(&mut self)
        ensures
            final(self)@ == Seq::<TaskView>::empty(),
    {
        self.tasks.clear();
        proof {
            assert(self@ =~= Seq::<TaskView>::empty());
        }
    }
}

/// If the first `i` tasks do not match and task `i` does, `spec_find`
/// returns exactly `i`.
proof fn lemma_spec_find_prefix_match(tasks: Seq<TaskView>, name: Seq<char>, i: int)
    requires
        0 <= i < tasks.len(),
        lower_of(tasks[i].name) == lower_of(name),
        forall|j: int| 0 <= j < i ==> lower_of(tasks[j].name) != lower_of(name),
    ensures
        spec_find(tasks, name) == Some(i),
    decreases i,
{
    if i > 0 {
        assert forall|j: int| 1 <= j < tasks.len() implies tasks.skip(1)[j - 1] == tasks[j] by {}
        lemma_spec_find_prefix_match(tasks.skip(1), name, i - 1);
    }
}

/// If no task matches, `spec_find` returns `None`.
proof fn lemma_spec_find_no_match(tasks: Seq<TaskView>, name: Seq<char>)
    requires
        forall|j: int| 0 <= j < tasks.len() ==> lower_of(tasks[j].name) != lower_of(name),
    ensures
        spec_find(tasks, name) is None,
{
    lemma_spec_find_characterization(tasks, name);
}


impl TaskManager {
    /// Encodes the full ordered store as one text record; the codec round
    /// trip law guarantees `load_from_str` reads it back unchanged.
    pub fn serialize(&self) -> (r: String)
        requires
            forall|i: int| 0 <= i < self@.len() ==> (#[trigger] self@[i]).wf(),
        ensures
            r@ == spec_serialize(self@),
    {
        proof {
            assert forall|i: int| 0 <= i < self.tasks@.len() implies (#[trigger] self.tasks@[i])@.wf() by {
                assert(self@[i] == self.tasks@[i]@);
            }
        }
        serialize_tasks(&self.tasks)
    }

    /// Replaces the store's contents with the tasks a text record denotes;
    /// fails with `ParseError` on malformed input, the store unchanged.
    pub fn load_from_str(&mut self, s: &str) -> (r: Result<(), ParseError>)
        ensures
            match r {
                Ok(()) => {
                    &&& spec_deserialize(s@) == Some(final(self)@)
                    &&& forall|i: int| 0 <= i < final(self)@.len() ==> (#[trigger] final(self)@[i]).wf()
                },
                Err(_) => spec_deserialize(s@) is None && final(self)@ == old(self)@,
            },
    {
        match deserialize(s) {
            Ok(ts) => {
                self.tasks = ts;
                Ok(())
            },
            Err(e) => Err(e),
        }
    }
}

/// Appending a task whose name no existing task shares case-insensitively,
/// then searching for that task's name, finds exactly the appended task's
/// index.
pub proof fn lemma_append_then_find(tasks: Seq<TaskView>, t: TaskView)
    requires
        forall|j: int| 0 <= j < tasks.len() ==> lower_of(#[trigger] tasks[j].name) != lower_of(
            t.name,
        ),
    ensures
        spec_find(tasks.push(t), t.name) == Some(tasks.len() as int),
{
    let ts2 = tasks.push(t);
    assert(ts2[tasks.len() as int] == t);
    assert forall|j: int| 0 <= j < tasks.len() implies lower_of(ts2[j].name) != lower_of(
        t.name,
    ) by {
        assert(ts2[j] == tasks[j]);
    }
    lemma_spec_find_prefix_match(ts2, t.name, tasks.len() as int);
}

} // verus!
