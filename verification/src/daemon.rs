//! The state of the background service and the decisions that it takes. What a
//! decision asks for (a download, a wallpaper, a signal) is done by the caller.

use vstd::prelude::*;

use crate::config::{mode_of, text_under, with_setting, Config};
use crate::history::{fronted, newest_of, pushed, History, HistoryEntry};
use crate::json::{with_member, JsonMap, JsonView};
use crate::path::{file_stem, file_stem_of};
use crate::queue::{others, PendingTask, Tasks};
use crate::schedule::{lemma_stamped_not_due, missed_among, missed_windows, plan_of, run_at};
use crate::source::{built_ins, BuiltIn, Source};
use crate::storage::{ImageMeta, MetaView};
use crate::tasklog::{logged, open_entry, TaskLog, TaskLogEntry};
use crate::text::{concat, opt_text, same};

verus! {

pub struct Daemon {
    pub config: Config,
    pub history: History,
    pub tasks: Tasks,
    pub task_log: TaskLog,
    /// The running tasks that are to stop at their next step.
    pub cancel: Vec<u64>,
    /// The last error message.
    pub last_error: String,
    /// The file applied last; it is not applied again.
    pub last_applied: Option<String>,
    /// The id of the next task.
    pub next_task_id: u64,
}

/// Every task that waits or runs has an id of its own, which was given out
/// before.
pub open spec fn ids_unique(d: Daemon) -> bool {
    let queue = d.tasks.queue@;
    &&& forall|i: int| 0 <= i < queue.len() ==> (#[trigger] queue[i]).log_id < d.next_task_id
    &&& forall|i: int, j: int|
        0 <= i < j < queue.len() ==> (#[trigger] queue[i]).log_id != (#[trigger] queue[j]).log_id
    &&& d.tasks.running_id is Some ==> d.tasks.running_id->0 < d.next_task_id && forall|i: int|
        0 <= i < queue.len() ==> (#[trigger] queue[i]).log_id != d.tasks.running_id->0
}

/// Taking a task out of the queue keeps the ids of the others apart.
proof fn lemma_others_apart(queue: Seq<PendingTask>, id: u64)
    requires
        forall|i: int, j: int|
            0 <= i < j < queue.len() ==> (#[trigger] queue[i]).log_id != (
            #[trigger] queue[j]).log_id,
    ensures
        forall|i: int|
            0 <= i < others(queue, id).len() ==> queue.contains(#[trigger] others(queue, id)[i]),
        forall|i: int, j: int|
            0 <= i < j < others(queue, id).len() ==> (#[trigger] others(queue, id)[i]).log_id != (
            #[trigger] others(queue, id)[j]).log_id,
    decreases queue.len(),
{
    if queue.len() > 0 {
        let init = queue.drop_last();
        let rest = others(init, id);
        let all = others(queue, id);
        assert forall|i: int, j: int| 0 <= i < j < init.len() implies (
        #[trigger] init[i]).log_id != (#[trigger] init[j]).log_id by {
            assert(init[i] == queue[i] && init[j] == queue[j]);
        }
        lemma_others_apart(init, id);
        assert forall|i: int| 0 <= i < all.len() implies queue.contains(#[trigger] all[i]) by {
            if i < rest.len() {
                assert(all[i] == rest[i]);
                let k = choose|k: int| 0 <= k < init.len() && init[k] == rest[i];
                assert(queue[k] == all[i]);
            } else {
                assert(queue[queue.len() - 1] == all[i]);
            }
        }
        assert forall|i: int, j: int| 0 <= i < j < all.len() implies (
        #[trigger] all[i]).log_id != (#[trigger] all[j]).log_id by {
            assert(all[i] == rest[i]);
            let k = choose|k: int| 0 <= k < init.len() && init[k] == rest[i];
            if j < rest.len() {
                assert(all[j] == rest[j]);
            } else {
                assert(queue[k].log_id != queue[queue.len() - 1].log_id);
            }
        }
    }
}

/// A log entry of a task that waits.
pub open spec fn is_waiting_entry(
    e: TaskLogEntry,
    id: u64,
    now: i64,
    label: Seq<char>,
    kind: Seq<char>,
    source: Seq<char>,
    catchup: bool,
) -> bool {
    &&& e.id == id
    &&& e.start_ts == now
    &&& e.end_ts == 0
    &&& e.label@ == label
    &&& e.kind@ == kind
    &&& e.source@ == source
    &&& e.catchup == catchup
    &&& !e.success
    &&& e.error@.len() == 0
    &&& e.done == 0
    &&& e.total == 0
    &&& e.retries == 0
}

/// A log entry of something that is over.
pub open spec fn is_past_entry(
    e: TaskLogEntry,
    id: u64,
    now: i64,
    label: Seq<char>,
    kind: Seq<char>,
    source: Seq<char>,
    catchup: bool,
    success: bool,
    error: Seq<char>,
) -> bool {
    &&& e.id == id
    &&& e.start_ts == now
    &&& e.end_ts == now
    &&& e.label@ == label
    &&& e.kind@ == kind
    &&& e.source@ == source
    &&& e.catchup == catchup
    &&& e.success == success
    &&& e.error@ == error
    &&& e.done == 0
    &&& e.total == 0
    &&& e.retries == 0
}

pub open spec fn kind_text(scheduled: bool) -> Seq<char> {
    if scheduled {
        "scheduled"@
    } else {
        "manual"@
    }
}

/// The label of an update: `Updating Bing`.
pub open spec fn update_text(updating: Seq<char>, name: Seq<char>) -> Seq<char> {
    updating + " "@ + name
}

pub fn update_label(updating: &str, name: &str) -> (r: String)
    ensures
        r@ == update_text(updating@, name@),
{
    concat(concat(updating, " ").as_str(), name)
}

/// The name of a source that is shown: its own, or the id of an unknown one.
pub fn name_of(source: &str) -> (r: String)
    ensures
        (forall|s: BuiltIn| #[trigger] s.spec_id() != source@) ==> r@ == source@,
        forall|s: BuiltIn|
            #[trigger] s.spec_id() == source@ && !s.translates_name() ==> r@ == s.english_name(),
{
    match crate::source::by_id(source) {
        Some(s) => {
            let r = s.display_name();
            proof {
                assert forall|t: BuiltIn|
                    #[trigger] t.spec_id() == source@ && !t.translates_name() implies r@
                    == t.english_name() by {
                    crate::source::lemma_ids_distinct(s, t);
                }
            }
            r
        },
        None => source.to_owned(),
    }
}

/// What cancelling a task comes to.
#[derive(Clone, Copy, Debug, PartialEq, Eq, Structural)]
pub struct Cancelled {
    /// The task was waiting and is gone; the next one may start.
    pub queued: bool,
    /// The task runs: its download is to be stopped.
    pub running: bool,
}

/// What is to be done about an image that is to be applied.
#[derive(Clone, Copy, Debug, PartialEq, Eq, Structural)]
pub enum ApplyCheck {
    /// There is no such file.
    Missing,
    /// It is the wallpaper already.
    Unchanged,
    Apply,
}

/// The image that a rule asks for.
#[derive(Clone, Copy, Debug, PartialEq, Eq, Structural)]
pub enum Pick {
    /// Keep the wallpaper.
    Keep,
    Random,
    Latest,
}

/// The image that a mode asks for.
pub open spec fn pick_for(mode: Seq<char>) -> Pick {
    if mode == "manual"@ {
        Pick::Keep
    } else if mode == "random"@ {
        Pick::Random
    } else {
        Pick::Latest
    }
}

/// The image that is applied after an update of a source, by the configuration
/// `m`.
pub open spec fn pick_after(m: Seq<(Seq<char>, JsonView)>, source: Seq<char>) -> Pick {
    if text_under(m, "wallpaper-source"@) == source {
        pick_for(mode_of(m, source))
    } else {
        Pick::Keep
    }
}

fn pick_of(mode: &str) -> (r: Pick)
    ensures
        r == pick_for(mode@),
{
    if same(mode, "manual") {
        Pick::Keep
    } else if same(mode, "random") {
        Pick::Random
    } else {
        Pick::Latest
    }
}

/// What a change of the wallpaper source asks for.
#[derive(Clone, Copy, Debug, PartialEq, Eq, Structural)]
pub enum Switch {
    /// No source: restore the user's own wallpaper.
    Restore,
    /// The source has no images yet: nothing is applied.
    RememberOnly,
    /// Apply the newest pick of the source, or its latest image.
    ApplyPick,
    /// Apply by the rule.
    ApplyRule,
}

/// The source and title of an image, for the history.
pub open spec fn title_for(path: Seq<char>, meta: Option<MetaView>) -> Seq<char> {
    match meta {
        Some(m) => m.title,
        None => match file_stem_of(path) {
            Some(s) => s,
            None => Seq::empty(),
        },
    }
}

pub open spec fn opt_meta(m: Option<&ImageMeta>) -> Option<MetaView> {
    match m {
        Some(m) => Some(m@),
        None => None,
    }
}

/// The ids but one.
pub open spec fn without_id(ids: Seq<u64>, id: u64) -> Seq<u64>
    decreases ids.len(),
{
    if ids.len() == 0 {
        ids
    } else if ids.last() == id {
        without_id(ids.drop_last(), id)
    } else {
        without_id(ids.drop_last(), id).push(ids.last())
    }
}

fn nothing() -> (r: String)
    ensures
        r@ == Seq::<char>::empty(),
{
    let r = String::new();
    assert(r@ =~= Seq::<char>::empty());
    r
}

impl Daemon {
    /// A service that starts, with what was stored.
    pub fn new(config: Config, history: History, task_log: TaskLog) -> (r: Daemon)
        ensures
            r.config == config,
            r.history == history,
            r.task_log == task_log,
            r.tasks.queue@.len() == 0,
            r.tasks.running_id is None,
            r.cancel@.len() == 0,
            r.last_error@.len() == 0,
            r.last_applied is None,
            r.next_task_id == 1,
            ids_unique(r),
    {
        Daemon {
            config,
            history,
            tasks: Tasks::new(),
            task_log,
            cancel: Vec::new(),
            last_error: nothing(),
            last_applied: None,
            next_task_id: 1,
        }
    }

    /// A fresh id for a task.
    pub fn next_log_id(&mut self) -> (r: u64)
        requires
            old(self).next_task_id < u64::MAX,
        ensures
            r == old(self).next_task_id,
            *final(self) == (Daemon { next_task_id: (r + 1) as u64, ..*old(self) }),
    {
        let id = self.next_task_id;
        self.next_task_id = id + 1;
        id
    }

    /// Puts an update at the end of the queue and into the log.
    pub fn enqueue(
        &mut self,
        id: u64,
        label: String,
        source: &str,
        scheduled: bool,
        catchup: bool,
        now: i64,
    )
        ensures
            ({
                let e = final(self).task_log@[0];
                &&& is_waiting_entry(
                    e,
                    id,
                    now,
                    label@,
                    kind_text(scheduled),
                    source@,
                    catchup,
                )
                &&& final(self).task_log@ == logged(old(self).task_log@, e)
            }),
            ({
                let t = final(self).tasks.queue@.last();
                &&& t.log_id == id && t.label@ == label@ && t.source@ == source@ && t.scheduled
                    == scheduled
                &&& final(self).tasks.queue@ == old(self).tasks.queue@.push(t)
            }),
            final(self).tasks.running_id == old(self).tasks.running_id,
            *final(self) == (Daemon {
                task_log: final(self).task_log,
                tasks: final(self).tasks,
                ..*old(self)
            }),
    {
        let kind = if scheduled {
            "scheduled"
        } else {
            "manual"
        };
        self.task_log.push(
            TaskLogEntry {
                id,
                start_ts: now,
                end_ts: 0,
                label: label.clone(),
                kind: kind.to_owned(),
                source: source.to_owned(),
                catchup,
                success: false,
                error: nothing(),
                done: 0,
                total: 0,
                retries: 0,
            },
        );
        self.tasks.enqueue(
            PendingTask { label, source: source.to_owned(), log_id: id, scheduled },
        );
    }

    /// Asks for an update of a source. The attempt is stamped at once, so that
    /// no later tick asks for it again while it waits.
    pub fn spawn_update_kind(
        &mut self,
        source: &str,
        label: String,
        scheduled: bool,
        catchup: bool,
        now: i64,
    ) -> (id: u64)
        requires
            old(self).next_task_id < u64::MAX,
        ensures
            id == old(self).next_task_id,
            final(self).next_task_id == id + 1,
            final(self).config@ == with_setting(
                old(self).config@,
                source@,
                "last-updated-at"@,
                JsonView::Int(now as int),
            ),
            final(self).config.on_disk(),
            old(self).config.wf() ==> final(self).config.wf(),
            ({
                let e = final(self).task_log@[0];
                &&& is_waiting_entry(
                    e,
                    id,
                    now,
                    label@,
                    kind_text(scheduled),
                    source@,
                    catchup,
                )
                &&& final(self).task_log@ == logged(old(self).task_log@, e)
            }),
            ({
                let t = final(self).tasks.queue@.last();
                &&& t.log_id == id && t.label@ == label@ && t.source@ == source@ && t.scheduled
                    == scheduled
                &&& final(self).tasks.queue@ == old(self).tasks.queue@.push(t)
            }),
            final(self).tasks.running_id == old(self).tasks.running_id,
            *final(self) == (Daemon {
                config: final(self).config,
                task_log: final(self).task_log,
                tasks: final(self).tasks,
                next_task_id: final(self).next_task_id,
                ..*old(self)
            }),
            ids_unique(*old(self)) ==> ids_unique(*final(self)),
    {
        self.config.set_last_updated_at(source, now);
        let id = self.next_log_id();
        self.enqueue(id, label, source, scheduled, catchup, now);
        id
    }

    /// Starts the update that waits longest, unless one runs.
    pub fn pump(&mut self) -> (r: Option<PendingTask>)
        ensures
            match r {
                Some(task) => {
                    &&& old(self).tasks.running_id is None
                    &&& old(self).tasks.queue@.len() > 0
                    &&& task == old(self).tasks.queue@[0]
                    &&& final(self).tasks.queue@ == old(self).tasks.queue@.skip(1)
                    &&& final(self).tasks.running_id == Some(task.log_id)
                },
                None => {
                    &&& old(self).tasks.running_id is Some || old(self).tasks.queue@.len() == 0
                    &&& final(self).tasks.queue@ == old(self).tasks.queue@
                    &&& final(self).tasks.running_id == old(self).tasks.running_id
                },
            },
            *final(self) == (Daemon { tasks: final(self).tasks, ..*old(self) }),
            ids_unique(*old(self)) ==> ids_unique(*final(self)),
    {
        self.tasks.pump()
    }

    /// Whether a running task is to stop.
    pub fn is_cancelled(&self, id: u64) -> (r: bool)
        ensures
            r == self.cancel@.contains(id),
    {
        let mut i: usize = 0;
        while i < self.cancel.len()
            invariant
                i <= self.cancel.len(),
                forall|j: int| 0 <= j < i ==> self.cancel@[j] != id,
            decreases self.cancel.len() - i,
        {
            if self.cancel[i] == id {
                return true;
            }
            i += 1;
        }
        false
    }

    /// Cancels a task: one that waits is taken out of the queue and finished
    /// in the log with `message`; one that runs is to stop at its next step.
    pub fn cancel_task(&mut self, id: u64, message: &str, now: i64) -> (r: Cancelled)
        ensures
            r.queued == (exists|i: int|
                0 <= i < old(self).tasks.queue@.len() && (#[trigger] old(
                    self,
                ).tasks.queue@[i]).log_id == id),
            r.running == (old(self).tasks.running_id == Some(id)),
            final(self).tasks.queue@ == others(old(self).tasks.queue@, id),
            final(self).tasks.running_id == old(self).tasks.running_id,
            r.running ==> final(self).cancel@ == old(self).cancel@.push(id),
            !r.running ==> final(self).cancel@ == old(self).cancel@,
            ({
                let i = open_entry(old(self).task_log@, id, 0);
                if r.queued && i < old(self).task_log@.len() {
                    let e = final(self).task_log@[i];
                    &&& e.error@ == message@
                    &&& e == (TaskLogEntry {
                        end_ts: now,
                        success: false,
                        error: e.error,
                        ..old(self).task_log@[i]
                    })
                    &&& final(self).task_log@ == old(self).task_log@.update(i, e)
                } else {
                    final(self).task_log@ == old(self).task_log@
                }
            }),
            *final(self) == (Daemon {
                tasks: final(self).tasks,
                cancel: final(self).cancel,
                task_log: final(self).task_log,
                ..*old(self)
            }),
            ids_unique(*old(self)) ==> ids_unique(*final(self)),
    {
        let ghost queue = self.tasks.queue@;
        let (queued, running) = self.tasks.cancel(id);
        proof {
            if ids_unique(*old(self)) {
                lemma_others_apart(queue, id);
            }
        }
        if queued {
            self.task_log.finish(id, false, message, now);
        }
        if running {
            self.cancel.push(id);
        }
        Cancelled { queued, running }
    }

    /// The running task has ended: its log entry is finished, and an error is
    /// remembered. Says whether there is an error to report.
    pub fn finish_task(&mut self, id: u64, result: Result<(), String>, now: i64) -> (failed: bool)
        ensures
            failed == (result is Err),
            final(self).tasks.running_id is None,
            final(self).tasks.queue@ == old(self).tasks.queue@,
            final(self).cancel@ == without_id(old(self).cancel@, id),
            ({
                let i = open_entry(old(self).task_log@, id, 0);
                if i < old(self).task_log@.len() {
                    let e = final(self).task_log@[i];
                    &&& e.error@ == (match result {
                        Ok(_) => ""@,
                        Err(m) => m@,
                    })
                    &&& e == (TaskLogEntry {
                        end_ts: now,
                        success: result is Ok,
                        error: e.error,
                        ..old(self).task_log@[i]
                    })
                    &&& final(self).task_log@ == old(self).task_log@.update(i, e)
                } else {
                    final(self).task_log@ == old(self).task_log@
                }
            }),
            final(self).last_error@ == (match result {
                Ok(_) => old(self).last_error@,
                Err(m) => m@,
            }),
            *final(self) == (Daemon {
                tasks: final(self).tasks,
                cancel: final(self).cancel,
                task_log: final(self).task_log,
                last_error: final(self).last_error,
                ..*old(self)
            }),
            ids_unique(*old(self)) ==> ids_unique(*final(self)),
    {
        self.tasks.finish();
        self.forget_cancel(id);
        match result {
            Ok(_) => {
                self.task_log.finish(id, true, "", now);
                false
            },
            Err(message) => {
                self.task_log.finish(id, false, message.as_str(), now);
                self.last_error = message;
                true
            },
        }
    }

    fn forget_cancel(&mut self, id: u64)
        ensures
            *final(self) == (Daemon { cancel: final(self).cancel, ..*old(self) }),
            final(self).cancel@ == without_id(old(self).cancel@, id),
    {
        let mut kept: Vec<u64> = Vec::new();
        let mut i: usize = 0;
        assert(kept@ =~= without_id(self.cancel@.take(0), id));
        while i < self.cancel.len()
            invariant
                i <= self.cancel.len(),
                *self == *old(self),
                kept@ == without_id(self.cancel@.take(i as int), id),
            decreases self.cancel.len() - i,
        {
            let c = self.cancel[i];
            assert(self.cancel@.take(i + 1).drop_last() =~= self.cancel@.take(i as int));
            if c != id {
                kept.push(c);
            }
            i += 1;
        }
        assert(self.cancel@.take(i as int) =~= self.cancel@);
        self.cancel = kept;
    }

    /// Records something that was applied, or failed to be, in the log; an
    /// error is remembered.
    pub fn record_apply(&mut self, label: String, result: Result<(), String>, now: i64) -> (failed:
        bool)
        requires
            old(self).next_task_id < u64::MAX,
        ensures
            failed == (result is Err),
            final(self).next_task_id == old(self).next_task_id + 1,
            ({
                let e = final(self).task_log@[0];
                &&& is_past_entry(
                    e,
                    old(self).next_task_id,
                    now,
                    label@,
                    "apply"@,
                    Seq::empty(),
                    false,
                    result is Ok,
                    match result {
                        Ok(_) => Seq::empty(),
                        Err(m) => m@,
                    },
                )
                &&& final(self).task_log@ == logged(old(self).task_log@, e)
            }),
            final(self).last_error@ == (match result {
                Ok(_) => old(self).last_error@,
                Err(m) => m@,
            }),
            *final(self) == (Daemon {
                task_log: final(self).task_log,
                last_error: final(self).last_error,
                next_task_id: final(self).next_task_id,
                ..*old(self)
            }),
            ids_unique(*old(self)) ==> ids_unique(*final(self)),
    {
        let id = self.next_log_id();
        let (success, error) = match result {
            Ok(_) => (true, nothing()),
            Err(m) => {
                self.last_error = m.clone();
                (false, m)
            },
        };
        self.task_log.push(
            TaskLogEntry {
                id,
                start_ts: now,
                end_ts: now,
                label,
                kind: "apply".to_owned(),
                source: nothing(),
                catchup: false,
                success,
                error,
                done: 0,
                total: 0,
                retries: 0,
            },
        );
        !success
    }
}

/// A task that ended is no longer marked for cancellation, and every other
/// mark stays.
pub proof fn lemma_mark_cleared(ids: Seq<u64>, id: u64, other: u64)
    ensures
        !without_id(ids, id).contains(id),
        other != id ==> without_id(ids, id).contains(other) == ids.contains(other),
    decreases ids.len(),
{
    if ids.len() > 0 {
        let init = ids.drop_last();
        let rest = without_id(init, id);
        let all = without_id(ids, id);
        lemma_mark_cleared(init, id, other);
        if all.contains(id) {
            let k = choose|k: int| 0 <= k < all.len() && all[k] == id;
            if k < rest.len() {
                assert(rest[k] == id);
            }
        }
        if other != id {
            if all.contains(other) {
                let k = choose|k: int| 0 <= k < all.len() && all[k] == other;
                if k < rest.len() {
                    assert(rest[k] == other);
                    let m = choose|m: int| 0 <= m < init.len() && init[m] == other;
                    assert(ids[m] == other);
                } else {
                    assert(ids[ids.len() - 1] == other);
                }
            }
            if ids.contains(other) {
                let m = choose|m: int| 0 <= m < ids.len() && ids[m] == other;
                if m < init.len() {
                    assert(init[m] == other);
                    let k = choose|k: int| 0 <= k < rest.len() && rest[k] == other;
                    assert(all[k] == other);
                } else {
                    assert(all[all.len() - 1] == other);
                }
            }
        }
    }
}

impl Daemon {
    /// Records the windows that were missed while the service was not running.
    /// `map` holds the settings of all sources and `label` begins their label.
    pub fn report_missed_windows(&mut self, map: &JsonMap, label: &str, now: i64)
        requires
            old(self).next_task_id + built_ins().len() <= u64::MAX,
        ensures
            ({
                let missed = missed_among(map@, now as int, built_ins().len() as int);
                &&& final(self).next_task_id == old(self).next_task_id + missed.len()
                &&& missed_logged(
                    old(self).task_log@,
                    final(self).task_log@,
                    missed,
                    old(self).next_task_id,
                    label@,
                    now,
                    missed.len() as int,
                )
            }),
            *final(self) == (Daemon {
                task_log: final(self).task_log,
                next_task_id: final(self).next_task_id,
                ..*old(self)
            }),
            ids_unique(*old(self)) ==> ids_unique(*final(self)),
    {
        let missed = missed_windows(map, now);
        proof {
            lemma_missed_few(map@, now as int, built_ins().len() as int);
        }
        let ghost start = *self;
        let mut i: usize = 0;
        while i < missed.len()
            invariant
                i <= missed.len() <= built_ins().len(),
                start == *old(self),
                start.next_task_id + built_ins().len() <= u64::MAX,
                self.next_task_id == start.next_task_id + i,
                missed_logged(
                    start.task_log@,
                    self.task_log@,
                    missed@,
                    start.next_task_id,
                    label@,
                    now,
                    i as int,
                ),
                *self == (Daemon {
                    task_log: self.task_log,
                    next_task_id: self.next_task_id,
                    ..start
                }),
            decreases missed.len() - i,
        {
            let source = missed[i];
            let mut text = concat(label, " \u{b7} ");
            text.append(source.id());
            let ghost before = self.task_log@;
            let id = self.next_log_id();
            self.task_log.push(
                TaskLogEntry {
                    id,
                    start_ts: now,
                    end_ts: now,
                    label: text,
                    kind: "skipped".to_owned(),
                    source: source.id().to_owned(),
                    catchup: true,
                    success: false,
                    error: nothing(),
                    done: 0,
                    total: 0,
                    retries: 0,
                },
            );
            proof {
                let e = self.task_log@[0];
                assert(is_missed_entry(e, source, id, label@, now));
                assert(logged(before, e) == self.task_log@);
            }
            i += 1;
        }
    }
}

/// The log entry of a missed window.
pub open spec fn is_missed_entry(
    e: TaskLogEntry,
    source: BuiltIn,
    id: u64,
    label: Seq<char>,
    now: i64,
) -> bool {
    is_past_entry(
        e,
        id,
        now,
        label + " \u{b7} "@ + source.spec_id(),
        "skipped"@,
        source.spec_id(),
        true,
        false,
        Seq::empty(),
    )
}

/// `after` is the log once the first `n` missed windows were recorded, one
/// entry for each in turn.
pub open spec fn missed_logged(
    before: Seq<TaskLogEntry>,
    after: Seq<TaskLogEntry>,
    missed: Seq<BuiltIn>,
    first_id: u64,
    label: Seq<char>,
    now: i64,
    n: int,
) -> bool
    decreases n,
{
    if n <= 0 {
        after == before
    } else {
        exists|mid: Seq<TaskLogEntry>, e: TaskLogEntry|
            {
                &&& #[trigger] logged(mid, e) == after
                &&& is_missed_entry(e, missed[n - 1], (first_id + n - 1) as u64, label, now)
                &&& missed_logged(before, mid, missed, first_id, label, now, n - 1)
            }
    }
}

proof fn lemma_missed_few(map: Seq<(Seq<char>, JsonView)>, now: int, n: int)
    requires
        0 <= n,
    ensures
        missed_among(map, now, n).len() <= n,
    decreases n,
{
    if n > 0 {
        lemma_missed_few(map, now, n - 1);
    }
}

/// The history entry of an applied image.
pub open spec fn is_entry_for(
    e: HistoryEntry,
    path: Seq<char>,
    meta: Option<MetaView>,
    now: i64,
) -> bool {
    &&& e.file@ == path
    &&& e.source@ == (match meta {
        Some(m) => m.source,
        None => Seq::empty(),
    })
    &&& e.title@ == title_for(path, meta)
    &&& opt_text(e.copyright) == (match meta {
        Some(m) => m.copyright,
        None => None,
    })
    &&& e.applied_at == now
}

impl Daemon {
    /// What is to be done about an image: a missing one is an error, and the
    /// one applied last is not applied again.
    pub fn check_image(&self, path: &str, exists_on_disk: bool) -> (r: ApplyCheck)
        ensures
            r == (if !exists_on_disk {
                ApplyCheck::Missing
            } else if opt_text(self.last_applied) == Some(path@) {
                ApplyCheck::Unchanged
            } else {
                ApplyCheck::Apply
            }),
    {
        if !exists_on_disk {
            return ApplyCheck::Missing;
        }
        match &self.last_applied {
            Some(last) => if same(last.as_str(), path) {
                ApplyCheck::Unchanged
            } else {
                ApplyCheck::Apply
            },
            None => ApplyCheck::Apply,
        }
    }

    /// Remembers the user's own wallpaper, `current`, unless one is remembered
    /// already. Says whether it did.
    pub fn capture_original(&mut self, current: Option<&str>) -> (r: bool)
        ensures
            r == (text_under(old(self).config@, "original-wallpaper"@).len() == 0 && current
                is Some),
            r ==> final(self).config@ == with_member(
                old(self).config@,
                "original-wallpaper"@,
                JsonView::Str(current->0@),
            ),
            r ==> final(self).config.on_disk(),
            !r ==> final(self).config == old(self).config,
            old(self).config.wf() ==> final(self).config.wf(),
            *final(self) == (Daemon { config: final(self).config, ..*old(self) }),
    {
        if !self.config.original_wallpaper().as_str().is_empty() {
            return false;
        }
        match current {
            Some(path) => {
                self.config.set_original_wallpaper(path);
                true
            },
            None => false,
        }
    }

    /// An image was applied: it goes to the front of the history, which is to be
    /// saved. What follows, [`Daemon::applied_saved`] says.
    pub fn note_applied(&mut self, path: &str, meta: Option<&ImageMeta>, now: i64)
        ensures
            ({
                let e = final(self).history@[0];
                &&& is_entry_for(e, path@, opt_meta(meta), now)
                &&& final(self).history@ == pushed(old(self).history@, e)
            }),
            *final(self) == (Daemon { history: final(self).history, ..*old(self) }),
    {
        let source = match meta {
            Some(m) => m.source.clone(),
            None => nothing(),
        };
        let title = match meta {
            Some(m) => m.title.clone(),
            None => match file_stem(path) {
                Some(s) => s,
                None => nothing(),
            },
        };
        let copyright = match meta {
            Some(m) => m.copyright.clone(),
            None => None,
        };
        let entry = HistoryEntry {
            file: path.to_owned(),
            source,
            title,
            copyright,
            applied_at: now,
        };
        let ghost e = entry;
        self.history.push(entry);
        assert(self.history@[0] == e);
    }

    /// The history was saved after an image was applied, or that failed: only
    /// once it is saved is the image the one applied last, and an error is that
    /// of applying it.
    pub fn applied_saved(&mut self, path: &str, saved: Result<(), String>) -> (r: Result<
        (),
        String,
    >)
        ensures
            r == saved,
            opt_text(final(self).last_applied) == (if saved is Ok {
                Some(path@)
            } else {
                opt_text(old(self).last_applied)
            }),
            *final(self) == (Daemon { last_applied: final(self).last_applied, ..*old(self) }),
    {
        match saved {
            Ok(_) => {
                self.last_applied = Some(path.to_owned());
                saved
            },
            Err(_) => saved,
        }
    }

    /// Browsing to an image is a pick: its source becomes the wallpaper source,
    /// in manual mode, so that no update jumps away from the pick. An image
    /// without a source changes nothing.
    pub fn follow_pick(&mut self, source: &str)
        ensures
            final(self).config@ == (if source@.len() == 0 {
                old(self).config@
            } else {
                with_setting(
                    with_member(
                        old(self).config@,
                        "wallpaper-source"@,
                        JsonView::Str(source@),
                    ),
                    source@,
                    "mode"@,
                    JsonView::Str("manual"@),
                )
            }),
            final(self).config.on_disk() == (old(self).config.on_disk() || source@.len() > 0),
            old(self).config.wf() ==> final(self).config.wf(),
            *final(self) == (Daemon { config: final(self).config, ..*old(self) }),
    {
        if !source.is_empty() {
            self.config.set_wallpaper_source(source);
            self.config.set_source_mode(source, "manual");
        }
    }

    /// Goes back to the wallpaper before the current one, and says which it is;
    /// `None` where the history has no earlier one. The history is to be saved
    /// before that wallpaper is applied: see [`Daemon::previous_saved`].
    pub fn pick_previous(&mut self) -> (r: Option<String>)
        ensures
            match r {
                Some(file) => {
                    &&& old(self).history@.len() >= 2
                    &&& file@ == old(self).history@[1].file@
                    &&& final(self).history@ == fronted(old(self).history@, 1)
                },
                None => old(self).history@.len() < 2 && final(self).history == old(self).history,
            },
            *final(self) == (Daemon { history: final(self).history, ..*old(self) }),
    {
        if self.history.entries().len() < 2 {
            return None;
        }
        let ghost before = self.history@;
        self.history.move_to_front(1);
        assert(self.history@[0] == before[1]);
        match self.history.current() {
            Some(e) => Some(e.file.clone()),
            None => None,
        }
    }

    /// The wallpaper to apply once the history was saved after going back to
    /// it; a failure to save it is the error of going back.
    pub fn previous_saved(&self, file: String, saved: Result<(), String>) -> (r: Result<
        String,
        String,
    >)
        ensures
            match saved {
                Ok(_) => r == Ok::<String, String>(file),
                Err(message) => r == Err::<String, String>(message),
            },
    {
        match saved {
            Ok(_) => Ok(file),
            Err(message) => Err(message),
        }
    }

    /// The source and the image that the rule asks for; `None` where no source
    /// is selected.
    pub fn rule(&self) -> (r: Option<(String, Pick)>)
        ensures
            ({
                let source = text_under(self.config@, "wallpaper-source"@);
                match r {
                    Some((s, pick)) => source.len() > 0 && s@ == source && pick == pick_for(
                        mode_of(self.config@, source),
                    ),
                    None => source.len() == 0,
                }
            }),
    {
        let source = self.config.wallpaper_source();
        if source.as_str().is_empty() {
            return None;
        }
        let mode = self.config.source_mode(source.as_str());
        let pick = pick_of(mode.as_str());
        Some((source, pick))
    }

    /// What follows an update: the image that the source's mode asks for, if
    /// it is the wallpaper source.
    pub fn after_update(&self, source: &str) -> (r: Pick)
        ensures
            r == pick_after(self.config@, source@),
    {
        if same(self.config.wallpaper_source().as_str(), source) {
            pick_of(self.config.source_mode(source).as_str())
        } else {
            Pick::Keep
        }
    }

    /// Changes the wallpaper source and its mode. Nothing is fetched; an image
    /// is applied only where the source has any.
    pub fn set_wallpaper_source(&mut self, source: &str, mode: &str, has_images: bool) -> (r:
        Switch)
        ensures
            r == (if source@.len() == 0 {
                Switch::Restore
            } else if !has_images {
                Switch::RememberOnly
            } else if mode@ == "manual"@ {
                Switch::ApplyPick
            } else {
                Switch::ApplyRule
            }),
            final(self).config@ == (if source@.len() == 0 {
                with_member(old(self).config@, "wallpaper-source"@, JsonView::Str(source@))
            } else {
                with_setting(
                    with_member(
                        old(self).config@,
                        "wallpaper-source"@,
                        JsonView::Str(source@),
                    ),
                    source@,
                    "mode"@,
                    JsonView::Str(mode@),
                )
            }),
            final(self).config.on_disk(),
            old(self).config.wf() ==> final(self).config.wf(),
            *final(self) == (Daemon { config: final(self).config, ..*old(self) }),
    {
        self.config.set_wallpaper_source(source);
        if source.is_empty() {
            return Switch::Restore;
        }
        self.config.set_source_mode(source, mode);
        if !has_images {
            Switch::RememberOnly
        } else if same(mode, "manual") {
            Switch::ApplyPick
        } else {
            Switch::ApplyRule
        }
    }

    /// The image to apply when a source is switched to in manual mode: its last
    /// pick, as long as that file is there; else the latest image is due.
    /// `exists_on_disk` says whether the file of the newest history entry of the
    /// source is there.
    pub fn manual_pick(&self, source: &str, exists_on_disk: bool) -> (r: Option<String>)
        ensures
            opt_text(r) == (match newest_of(self.history@, source@, 0) {
                Some(e) => if exists_on_disk {
                    Some(e.file@)
                } else {
                    None
                },
                None => None,
            }),
    {
        match self.history.latest_of(source) {
            Some(e) => if exists_on_disk {
                Some(e.file.clone())
            } else {
                None
            },
            None => None,
        }
    }

    /// The user's own wallpaper, where one is remembered.
    pub fn original(&self) -> (r: Option<String>)
        ensures
            opt_text(r) == crate::json::filled(
                Some(text_under(self.config@, "original-wallpaper"@)),
            ),
    {
        crate::json::filled_string(Some(self.config.original_wallpaper()))
    }

    /// The user's own wallpaper was restored.
    pub fn note_restored(&mut self, path: &str)
        ensures
            opt_text(final(self).last_applied) == Some(path@),
            *final(self) == (Daemon { last_applied: final(self).last_applied, ..*old(self) }),
    {
        self.last_applied = Some(path.to_owned());
    }
}

/// A pick stays: once the user picked an image of a source, no update of any
/// source changes the wallpaper by itself.
pub proof fn lemma_pick_stays(
    m: Seq<(Seq<char>, JsonView)>,
    source: Seq<char>,
    updated: Seq<char>,
)
    requires
        match crate::json::lookup(crate::config::all_settings(m), source) {
            None => true,
            Some(v) => v is Object,
        },
        source.len() > 0,
    ensures
        ({
            let picked = with_setting(
                with_member(m, "wallpaper-source"@, JsonView::Str(source)),
                source,
                "mode"@,
                JsonView::Str("manual"@),
            );
            pick_after(picked, updated) == Pick::Keep
        }),
{
    reveal_strlit("wallpaper-source");
    reveal_strlit("source-settings");
    reveal_strlit("manual");
    let key = "wallpaper-source"@;
    let all = "source-settings"@;
    assert(key.len() != all.len());
    let m1 = with_member(m, key, JsonView::Str(source));
    crate::json::lemma_set_member(m, key, JsonView::Str(source), all);
    crate::json::lemma_set_member(m, key, JsonView::Str(source), key);
    crate::config::lemma_mode_per_source(m1, source, "manual"@, source);
    crate::config::lemma_setting_reads_back(
        m1,
        source,
        "mode"@,
        JsonView::Str("manual"@),
        source,
        key,
    );
}

/// An update that was asked for is not asked for again while it waits: within
/// the interval of the source, no tick starts another one.
pub proof fn lemma_update_asked_once(
    m: Seq<(Seq<char>, JsonView)>,
    source: Seq<char>,
    now: i64,
    later: int,
    started_at: int,
)
    requires
        match crate::json::lookup(crate::config::all_settings(m), source) {
            None => true,
            Some(v) => v is Object,
        },
        now <= later < now + plan_of(crate::config::all_settings(m), source).interval,
    ensures
        ({
            let asked = with_setting(m, source, "last-updated-at"@, JsonView::Int(now as int));
            run_at(plan_of(crate::config::all_settings(asked), source), later, started_at) is None
        }),
{
    reveal_strlit("last-updated-at");
    reveal_strlit("update-interval");
    reveal_strlit("update-enabled");
    let key = "last-updated-at"@;
    let value = JsonView::Int(now as int);
    assert(key[0] != "update-interval"@[0] && key[0] != "update-enabled"@[0]);
    crate::config::lemma_setting_reads_back(m, source, key, value, source, "update-interval"@);
    crate::config::lemma_setting_reads_back(m, source, key, value, source, "update-enabled"@);
    lemma_stamped_not_due(
        plan_of(crate::config::all_settings(m), source),
        now,
        later,
        started_at,
    );
}

/// The mode that a source was given is the one that is restored when switching
/// back to it, whatever other sources were selected in between.
pub proof fn lemma_mode_restored(
    m: Seq<(Seq<char>, JsonView)>,
    source: Seq<char>,
    mode: Seq<char>,
    other: Seq<char>,
    other_mode: Seq<char>,
)
    requires
        match crate::json::lookup(crate::config::all_settings(m), source) {
            None => true,
            Some(v) => v is Object,
        },
        match crate::json::lookup(crate::config::all_settings(m), other) {
            None => true,
            Some(v) => v is Object,
        },
        mode.len() > 0,
        other_mode.len() > 0,
        other != source,
    ensures
        ({
            let a = with_setting(
                with_member(m, "wallpaper-source"@, JsonView::Str(source)),
                source,
                "mode"@,
                JsonView::Str(mode),
            );
            let b = with_setting(
                with_member(a, "wallpaper-source"@, JsonView::Str(other)),
                other,
                "mode"@,
                JsonView::Str(other_mode),
            );
            mode_of(b, source) == mode && mode_of(b, other) == other_mode
        }),
{
    reveal_strlit("wallpaper-source");
    reveal_strlit("source-settings");
    reveal_strlit("wallpaper-mode");
    let key = "wallpaper-source"@;
    let all = "source-settings"@;
    assert(key.len() != all.len());
    let m1 = with_member(m, key, JsonView::Str(source));
    crate::json::lemma_set_member(m, key, JsonView::Str(source), all);
    let a = with_setting(m1, source, "mode"@, JsonView::Str(mode));
    crate::config::lemma_mode_per_source(m1, source, mode, other);
    crate::config::lemma_setting_reads_back(
        m1,
        source,
        "mode"@,
        JsonView::Str(mode),
        other,
        key,
    );
    let a1 = with_member(a, key, JsonView::Str(other));
    crate::json::lemma_set_member(a, key, JsonView::Str(other), all);
    crate::json::lemma_set_member(a, key, JsonView::Str(other), "wallpaper-mode"@);
    assert(key.len() != "wallpaper-mode"@.len());
    assert(mode_of(a1, source) == mode_of(a, source));
    let entry = crate::config::entry_with(
        crate::json::lookup(crate::config::all_settings(m1), source),
        "mode"@,
        JsonView::Str(mode),
    );
    crate::json::lemma_set_member(crate::config::all_settings(m1), source, entry, other);
    crate::json::lemma_set_member(
        m1,
        all,
        JsonView::Object(with_member(crate::config::all_settings(m1), source, entry)),
        all,
    );
    crate::config::lemma_mode_per_source(a1, other, other_mode, source);
}

} // verus!
