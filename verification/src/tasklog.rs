//! The log of queued tasks, newest first: the data behind the timeline.

use vstd::prelude::*;

verus! {

/// The oldest entries beyond this number are dropped.
pub const MAX_ENTRIES: usize = 200;

#[derive(Debug)]
pub struct TaskLogEntry {
    pub id: u64,
    /// Unix timestamp at which the task was enqueued.
    pub start_ts: i64,
    /// Unix timestamp at which it finished; 0 while it waits or runs.
    pub end_ts: i64,
    /// Translated label.
    pub label: String,
    /// `scheduled`, `manual` or `apply`.
    pub kind: String,
    /// Source id; empty for other operations.
    pub source: String,
    /// The run makes up for a window that was missed.
    pub catchup: bool,
    pub success: bool,
    /// Error message; empty on success.
    pub error: String,
    /// Steps done, and their number; a number of 0 means no steps.
    pub done: i32,
    pub total: i32,
    /// Automatic retries so far.
    pub retries: i32,
}

/// The tasks, newest first.
pub struct TaskLog {
    entries: Vec<TaskLogEntry>,
}

impl View for TaskLog {
    type V = Seq<TaskLogEntry>;

    closed spec fn view(&self) -> Seq<TaskLogEntry> {
        self.entries@
    }
}

/// The entry waits or runs.
pub open spec fn is_open(e: TaskLogEntry) -> bool {
    e.end_ts == 0
}

/// The first open entry of a task at or behind `from`, or their number.
pub open spec fn open_entry(s: Seq<TaskLogEntry>, id: u64, from: int) -> int
    decreases s.len() - from,
{
    if from >= s.len() {
        s.len() as int
    } else if s[from].id == id && is_open(s[from]) {
        from
    } else {
        open_entry(s, id, from + 1)
    }
}

pub open spec fn logged(s: Seq<TaskLogEntry>, entry: TaskLogEntry) -> Seq<TaskLogEntry> {
    let all = seq![entry] + s;
    if all.len() > MAX_ENTRIES {
        all.take(MAX_ENTRIES as int)
    } else {
        all
    }
}

/// `t` is `s` but for the first open entry of a task, if there is one, which
/// `e` replaces.
pub open spec fn replaced_open(
    s: Seq<TaskLogEntry>,
    t: Seq<TaskLogEntry>,
    id: u64,
    e: TaskLogEntry,
) -> bool {
    let i = open_entry(s, id, 0);
    if i < s.len() {
        t == s.update(i, e)
    } else {
        t == s
    }
}

/// No entry that has finished differs.
pub open spec fn keeps_finished(s: Seq<TaskLogEntry>, t: Seq<TaskLogEntry>) -> bool {
    t.len() == s.len() && forall|i: int|
        0 <= i < s.len() && !is_open(s[i]) ==> #[trigger] t[i] == s[i]
}

proof fn lemma_open_entry(s: Seq<TaskLogEntry>, id: u64, from: int)
    requires
        0 <= from <= s.len(),
    ensures
        from <= open_entry(s, id, from) <= s.len(),
        open_entry(s, id, from) < s.len() ==> s[open_entry(s, id, from)].id == id && is_open(
            s[open_entry(s, id, from)],
        ),
    decreases s.len() - from,
{
    if from < s.len() && !(s[from].id == id && is_open(s[from])) {
        lemma_open_entry(s, id, from + 1);
    }
}

impl TaskLog {
    pub fn from_entries(entries: Vec<TaskLogEntry>) -> (r: TaskLog)
        ensures
            r@ == entries@,
    {
        TaskLog { entries }
    }

    pub fn entries(&self) -> (r: &Vec<TaskLogEntry>)
        ensures
            r@ == self@,
    {
        &self.entries
    }

    /// Records a task that was enqueued.
    pub fn push(&mut self, entry: TaskLogEntry)
        ensures
            final(self)@ == logged(old(self)@, entry),
            final(self)@.len() <= MAX_ENTRIES,
    {
        let ghost s = self@;
        self.entries.insert(0, entry);
        assert(self.entries@ =~= seq![entry] + s);
        if self.entries.len() > MAX_ENTRIES {
            self.entries.truncate(MAX_ENTRIES);
        }
        assert(self@ =~= logged(s, entry));
    }

    fn find_open(&self, id: u64) -> (r: Option<usize>)
        ensures
            match r {
                Some(i) => i < self@.len() && i == open_entry(self@, id, 0) && self@[i as int].id
                    == id && is_open(self@[i as int]),
                None => open_entry(self@, id, 0) == self@.len(),
            },
    {
        let mut i: usize = 0;
        while i < self.entries.len()
            invariant
                i <= self.entries.len(),
                open_entry(self@, id, 0) == open_entry(self@, id, i as int),
            decreases self.entries.len() - i,
        {
            if self.entries[i].id == id && self.entries[i].end_ts == 0 {
                return Some(i);
            }
            i += 1;
        }
        None
    }

    /// Sets the progress of an open entry; says whether there is one.
    pub fn progress(&mut self, id: u64, done: i32, total: i32) -> (changed: bool)
        ensures
            changed == (open_entry(old(self)@, id, 0) < old(self)@.len()),
            replaced_open(
                old(self)@,
                final(self)@,
                id,
                (TaskLogEntry { done, total, ..old(self)@[open_entry(old(self)@, id, 0)] }),
            ),
            keeps_finished(old(self)@, final(self)@),
    {
        let ghost s = self@;
        match self.find_open(id) {
            Some(i) => {
                self.entries[i].done = done;
                self.entries[i].total = total;
                assert(self@ =~= s.update(
                    i as int,
                    TaskLogEntry { done, total, ..s[i as int] },
                ));
                true
            },
            None => false,
        }
    }

    /// Counts an automatic retry of an open entry; says whether there is one.
    pub fn retried(&mut self, id: u64) -> (changed: bool)
        requires
            open_entry(old(self)@, id, 0) < old(self)@.len() ==> old(self)@[open_entry(
                old(self)@,
                id,
                0,
            )].retries < i32::MAX,
        ensures
            changed == (open_entry(old(self)@, id, 0) < old(self)@.len()),
            replaced_open(
                old(self)@,
                final(self)@,
                id,
                (TaskLogEntry {
                    retries: (old(self)@[open_entry(old(self)@, id, 0)].retries + 1) as i32,
                    ..old(self)@[open_entry(old(self)@, id, 0)]
                }),
            ),
            keeps_finished(old(self)@, final(self)@),
    {
        let ghost s = self@;
        match self.find_open(id) {
            Some(i) => {
                let n: i32 = self.entries[i].retries + 1;
                self.entries[i].retries = n;
                assert(self@ =~= s.update(i as int, TaskLogEntry { retries: n, ..s[i as int] }));
                true
            },
            None => false,
        }
    }

    /// Finishes an open entry; says whether there is one.
    pub fn finish(&mut self, id: u64, success: bool, error: &str, end_ts: i64) -> (changed: bool)
        ensures
            changed == (open_entry(old(self)@, id, 0) < old(self)@.len()),
            changed ==> ({
                let i = open_entry(old(self)@, id, 0);
                let e = final(self)@[i];
                &&& e.error@ == error@
                &&& e == (TaskLogEntry { end_ts, success, error: e.error, ..old(self)@[i] })
                &&& final(self)@ == old(self)@.update(i, e)
            }),
            !changed ==> final(self)@ == old(self)@,
            keeps_finished(old(self)@, final(self)@),
    {
        let ghost s = self@;
        match self.find_open(id) {
            Some(i) => {
                let message = error.to_owned();
                let ghost m = message;
                self.entries[i].end_ts = end_ts;
                self.entries[i].success = success;
                self.entries[i].error = message;
                assert(self@ =~= s.update(
                    i as int,
                    TaskLogEntry { end_ts, success, error: m, ..s[i as int] },
                ));
                true
            },
            None => false,
        }
    }
}

/// Once the only open entry of a task is finished, no later event of that task
/// finds an entry to change.
pub proof fn lemma_finished_once(s: Seq<TaskLogEntry>, id: u64, e: TaskLogEntry)
    requires
        open_entry(s, id, 0) < s.len(),
        forall|j: int|
            0 <= j < s.len() && (#[trigger] s[j]).id == id && is_open(s[j]) ==> j == open_entry(
                s,
                id,
                0,
            ),
        !is_open(e),
    ensures
        open_entry(s.update(open_entry(s, id, 0), e), id, 0) == s.len(),
{
    lemma_open_entry(s, id, 0);
    let i = open_entry(s, id, 0);
    let t = s.update(i, e);
    lemma_open_entry(t, id, 0);
    let k = open_entry(t, id, 0);
    if k < t.len() && k != i {
        assert(t[k] == s[k]);
    }
}

} // verus!
