//! The task queue: tasks run one at a time, in the order in which they came.

use std::collections::VecDeque;

use vstd::prelude::*;

verus! {

/// A task that waits for its turn.
#[derive(Debug)]
pub struct PendingTask {
    /// Translated name.
    pub label: String,
    /// Source id.
    pub source: String,
    /// The task's entry in the log.
    pub log_id: u64,
    /// The task runs on schedule, and is retried.
    pub scheduled: bool,
}

pub struct Tasks {
    pub queue: VecDeque<PendingTask>,
    /// The task that runs.
    pub running_id: Option<u64>,
}

/// The tasks that are not the one with an id.
pub open spec fn others(queue: Seq<PendingTask>, id: u64) -> Seq<PendingTask>
    decreases queue.len(),
{
    if queue.len() == 0 {
        queue
    } else if queue.last().log_id == id {
        others(queue.drop_last(), id)
    } else {
        others(queue.drop_last(), id).push(queue.last())
    }
}

impl Tasks {
    pub fn new() -> (r: Tasks)
        ensures
            r.queue@.len() == 0,
            r.running_id is None,
    {
        Tasks { queue: VecDeque::new(), running_id: None }
    }

    /// Puts a task at the end of the queue.
    pub fn enqueue(&mut self, task: PendingTask)
        ensures
            final(self).queue@ == old(self).queue@.push(task),
            final(self).running_id == old(self).running_id,
    {
        self.queue.push_back(task);
    }

    /// Starts the task that waits longest, unless one runs.
    pub fn pump(&mut self) -> (r: Option<PendingTask>)
        ensures
            match r {
                Some(task) => {
                    &&& old(self).running_id is None
                    &&& old(self).queue@.len() > 0
                    &&& task == old(self).queue@[0]
                    &&& final(self).queue@ == old(self).queue@.skip(1)
                    &&& final(self).running_id == Some(task.log_id)
                },
                None => {
                    &&& old(self).running_id is Some || old(self).queue@.len() == 0
                    &&& final(self).queue@ == old(self).queue@
                    &&& final(self).running_id == old(self).running_id
                },
            },
    {
        if self.running_id.is_some() {
            return None;
        }
        let ghost before = self.queue@;
        match self.queue.pop_front() {
            Some(task) => {
                assert(self.queue@ =~= before.skip(1));
                self.running_id = Some(task.log_id);
                Some(task)
            },
            None => None,
        }
    }

    /// The running task has ended.
    pub fn finish(&mut self)
        ensures
            final(self).running_id is None,
            final(self).queue@ == old(self).queue@,
    {
        self.running_id = None;
    }

    /// Takes a task out of the queue. Says whether it was waiting, and whether
    /// it is the one that runs.
    pub fn cancel(&mut self, id: u64) -> (r: (bool, bool))
        ensures
            final(self).queue@ == others(old(self).queue@, id),
            final(self).running_id == old(self).running_id,
            r.0 == (exists|i: int|
                0 <= i < old(self).queue@.len() && (#[trigger] old(self).queue@[i]).log_id == id),
            r.1 == (old(self).running_id == Some(id)),
    {
        let ghost all = self.queue@;
        let n: usize = self.queue.len();
        let mut kept: VecDeque<PendingTask> = VecDeque::new();
        let mut found = false;
        let mut i: usize = 0;
        assert(kept@ =~= others(all.take(0), id));
        assert(self.queue@ =~= all.skip(0));
        while i < n
            invariant
                i <= n == all.len(),
                self.queue@ == all.skip(i as int),
                self.running_id == old(self).running_id,
                kept@ == others(all.take(i as int), id),
                found == (exists|j: int| 0 <= j < i && (#[trigger] all[j]).log_id == id),
            decreases n - i,
        {
            let ghost rest = self.queue@;
            match self.queue.pop_front() {
                Some(task) => {
                    assert(task == all[i as int]);
                    assert(self.queue@ =~= all.skip(i + 1));
                    assert(all.take(i + 1).drop_last() =~= all.take(i as int));
                    if task.log_id == id {
                        found = true;
                        assert(all[i as int].log_id == id);
                    } else {
                        kept.push_back(task);
                    }
                },
                None => {},
            }
            i += 1;
        }
        assert(all.take(i as int) =~= all);
        self.queue = kept;
        let running = match self.running_id {
            Some(r) => r == id,
            None => false,
        };
        (found, running)
    }
}

/// Cancelling takes out the task alone, and keeps the order of the others.
pub proof fn lemma_cancel_keeps_others(queue: Seq<PendingTask>, id: u64)
    ensures
        forall|i: int| 0 <= i < others(queue, id).len() ==> (#[trigger] others(queue, id)[i]).log_id
            != id,
        (forall|i: int| 0 <= i < queue.len() ==> (#[trigger] queue[i]).log_id != id) ==> others(
            queue,
            id,
        ) == queue,
        others(queue, id) == queue.filter(|t: PendingTask| t.log_id != id),
    decreases queue.len(),
{
    reveal(Seq::filter);
    if queue.len() > 0 {
        let init = queue.drop_last();
        lemma_cancel_keeps_others(init, id);
        let rest = others(init, id);
        let all = others(queue, id);
        assert forall|i: int| 0 <= i < all.len() implies (#[trigger] all[i]).log_id != id by {
            if i < rest.len() {
                assert(all[i] == rest[i]);
            }
        }
        if forall|i: int| 0 <= i < queue.len() ==> (#[trigger] queue[i]).log_id != id {
            assert forall|i: int| 0 <= i < init.len() implies (#[trigger] init[i]).log_id != id by {
                assert(init[i] == queue[i]);
            }
            assert(queue[queue.len() - 1].log_id != id);
            assert(all =~= queue);
        }
    }
}

} // verus!
