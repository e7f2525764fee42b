//! The requests that the service answers.

use vstd::prelude::*;

use crate::config::{mode_of, text_under};
use crate::daemon::Daemon;
use crate::history::{History, HistoryEntry};
use crate::json::JsonView;
use crate::queue::PendingTask;
use crate::schedule::{plan_for, plan_of};
use crate::source::{built_ins, by_id, registry, BuiltIn, Source};
use crate::storage::{ImageView, StoredImage};
use crate::tasklog::TaskLogEntry;
use crate::text::{concat, same};

verus! {

/// The methods of the service.
#[derive(Clone, Copy, Debug, PartialEq, Eq, Structural)]
pub enum Method {
    GetStatus,
    GetLastError,
    FetchNow,
    GetSourceImages,
    SetWallpaperSource,
    ApplyWallpaper,
    ApplyLatest,
    ApplyRandom,
    ApplyFile,
    Previous,
    GetHistory,
    GetTasks,
    CancelTask,
    GetSchedule,
    GetTaskLog,
    HistoryRemove,
    ClearHistory,
}

/// The method that a name stands for.
pub open spec fn method_named(name: Seq<char>) -> Option<Method> {
    if name == "GetStatus"@ {
        Some(Method::GetStatus)
    } else if name == "GetLastError"@ {
        Some(Method::GetLastError)
    } else if name == "FetchNow"@ {
        Some(Method::FetchNow)
    } else if name == "GetSourceImages"@ {
        Some(Method::GetSourceImages)
    } else if name == "SetWallpaperSource"@ {
        Some(Method::SetWallpaperSource)
    } else if name == "ApplyWallpaper"@ || name == "Next"@ || name == "ApplyNow"@ {
        Some(Method::ApplyWallpaper)
    } else if name == "ApplyLatest"@ {
        Some(Method::ApplyLatest)
    } else if name == "ApplyRandom"@ {
        Some(Method::ApplyRandom)
    } else if name == "ApplyFile"@ {
        Some(Method::ApplyFile)
    } else if name == "Previous"@ {
        Some(Method::Previous)
    } else if name == "GetHistory"@ {
        Some(Method::GetHistory)
    } else if name == "GetTasks"@ {
        Some(Method::GetTasks)
    } else if name == "CancelTask"@ {
        Some(Method::CancelTask)
    } else if name == "GetSchedule"@ {
        Some(Method::GetSchedule)
    } else if name == "GetTaskLog"@ {
        Some(Method::GetTaskLog)
    } else if name == "HistoryRemove"@ {
        Some(Method::HistoryRemove)
    } else if name == "ClearHistory"@ {
        Some(Method::ClearHistory)
    } else {
        None
    }
}

impl Method {
    /// The method that a name stands for.
    pub fn parse(name: &str) -> (r: Option<Method>)
        ensures
            r == method_named(name@),
    {
        if same(name, "GetStatus") {
            Some(Method::GetStatus)
        } else if same(name, "GetLastError") {
            Some(Method::GetLastError)
        } else if same(name, "FetchNow") {
            Some(Method::FetchNow)
        } else if same(name, "GetSourceImages") {
            Some(Method::GetSourceImages)
        } else if same(name, "SetWallpaperSource") {
            Some(Method::SetWallpaperSource)
        } else if same(name, "ApplyWallpaper") || same(name, "Next") || same(name, "ApplyNow") {
            Some(Method::ApplyWallpaper)
        } else if same(name, "ApplyLatest") {
            Some(Method::ApplyLatest)
        } else if same(name, "ApplyRandom") {
            Some(Method::ApplyRandom)
        } else if same(name, "ApplyFile") {
            Some(Method::ApplyFile)
        } else if same(name, "Previous") {
            Some(Method::Previous)
        } else if same(name, "GetHistory") {
            Some(Method::GetHistory)
        } else if same(name, "GetTasks") {
            Some(Method::GetTasks)
        } else if same(name, "CancelTask") {
            Some(Method::CancelTask)
        } else if same(name, "GetSchedule") {
            Some(Method::GetSchedule)
        } else if same(name, "GetTaskLog") {
            Some(Method::GetTaskLog)
        } else if same(name, "HistoryRemove") {
            Some(Method::HistoryRemove)
        } else if same(name, "ClearHistory") {
            Some(Method::ClearHistory)
        } else {
            None
        }
    }
}

/// The arguments of a request, as far as they have the types that its method
/// takes: texts that are missing are empty, a number that is missing is -1.
#[derive(Debug)]
pub struct Params {
    pub first: String,
    pub second: String,
    pub number: i64,
}

/// A line of the task list.
#[derive(Debug)]
pub struct TaskRow {
    pub id: i64,
    pub label: String,
    pub running: bool,
    pub done: i32,
    pub total: i32,
}

pub struct TaskRowView {
    pub id: i64,
    pub label: Seq<char>,
    pub running: bool,
    pub done: i32,
    pub total: i32,
}

impl View for TaskRow {
    type V = TaskRowView;

    open spec fn view(&self) -> TaskRowView {
        TaskRowView {
            id: self.id,
            label: self.label@,
            running: self.running,
            done: self.done,
            total: self.total,
        }
    }
}

/// The update plan of a source.
#[derive(Debug)]
pub struct ScheduleRow {
    pub source: &'static str,
    pub enabled: bool,
    pub interval: i64,
    pub last: i64,
    pub next_due: i64,
}

pub struct ScheduleRowView {
    pub source: Seq<char>,
    pub enabled: bool,
    pub interval: i64,
    pub last: i64,
    pub next_due: i64,
}

impl View for ScheduleRow {
    type V = ScheduleRowView;

    open spec fn view(&self) -> ScheduleRowView {
        ScheduleRowView {
            source: self.source@,
            enabled: self.enabled,
            interval: self.interval,
            last: self.last,
            next_due: self.next_due,
        }
    }
}

/// The first log entry of a task, or their number.
pub open spec fn entry_of(log: Seq<TaskLogEntry>, id: u64, from: int) -> int
    decreases log.len() - from,
{
    if from >= log.len() {
        log.len() as int
    } else if log[from].id == id {
        from
    } else {
        entry_of(log, id, from + 1)
    }
}

/// The line of a task, where it is in the log.
pub open spec fn row_of(log: Seq<TaskLogEntry>, id: u64, running: bool) -> Option<TaskRowView> {
    let i = entry_of(log, id, 0);
    if i < log.len() {
        Some(
            TaskRowView {
                id: id as i64,
                label: log[i].label@,
                running,
                done: log[i].done,
                total: log[i].total,
            },
        )
    } else {
        None
    }
}

pub open spec fn with_row(rows: Seq<TaskRowView>, row: Option<TaskRowView>) -> Seq<TaskRowView> {
    match row {
        Some(r) => rows.push(r),
        None => rows,
    }
}

/// The lines of the first `n` tasks of the queue, behind those before.
pub open spec fn queue_rows(
    first: Seq<TaskRowView>,
    log: Seq<TaskLogEntry>,
    queue: Seq<PendingTask>,
    n: int,
) -> Seq<TaskRowView>
    decreases n,
{
    if n <= 0 {
        first
    } else {
        with_row(
            queue_rows(first, log, queue, n - 1),
            row_of(log, queue[n - 1].log_id, false),
        )
    }
}

/// The task list: the running task and then the waiting ones, in their order.
pub open spec fn task_rows(d: Daemon) -> Seq<TaskRowView> {
    let none = Seq::<TaskRowView>::empty();
    let first = match d.tasks.running_id {
        Some(id) => with_row(none, row_of(d.task_log@, id, true)),
        None => none,
    };
    queue_rows(first, d.task_log@, d.tasks.queue@, d.tasks.queue@.len() as int)
}

pub open spec fn row_views(rows: Seq<TaskRow>) -> Seq<TaskRowView> {
    Seq::new(rows.len(), |i: int| rows[i]@)
}

/// The sum in the range of `i64`, wrapped around where it is outside.
pub open spec fn wrapped_sum(a: i64, b: i64) -> i64 {
    if a + b > i64::MAX {
        (a + b - 0x1_0000_0000_0000_0000) as i64
    } else if a + b < i64::MIN {
        (a + b + 0x1_0000_0000_0000_0000) as i64
    } else {
        (a + b) as i64
    }
}

/// The update plan of the `i`-th source.
pub open spec fn schedule_row(map: Seq<(Seq<char>, JsonView)>, i: int) -> ScheduleRowView {
    let id = built_ins()[i].spec_id();
    let p = plan_of(map, id);
    ScheduleRowView {
        source: id,
        enabled: p.enabled,
        interval: p.interval,
        last: p.last,
        next_due: wrapped_sum(p.last, p.interval),
    }
}

impl Daemon {
    #[verifier::truncate]
    fn row(&self, id: u64, running: bool) -> (r: Option<TaskRow>)
        ensures
            match r {
                Some(row) => row_of(self.task_log@, id, running) == Some(row@),
                None => row_of(self.task_log@, id, running) is None,
            },
    {
        let log = self.task_log.entries();
        let mut i: usize = 0;
        while i < log.len()
            invariant
                i <= log.len(),
                log@ == self.task_log@,
                entry_of(log@, id, 0) == entry_of(log@, id, i as int),
            decreases log.len() - i,
        {
            if log[i].id == id {
                return Some(
                    TaskRow {
                        id: id as i64,
                        label: log[i].label.clone(),
                        running,
                        done: log[i].done,
                        total: log[i].total,
                    },
                );
            }
            i += 1;
        }
        None
    }

    /// The task list: the running task and then the waiting ones.
    pub fn task_list(&self) -> (r: Vec<TaskRow>)
        ensures
            row_views(r@) == task_rows(*self),
    {
        let mut rows: Vec<TaskRow> = Vec::new();
        assert(row_views(rows@) =~= Seq::empty());
        if let Some(id) = self.tasks.running_id {
            if let Some(row) = self.row(id, true) {
                let ghost v = row@;
                rows.push(row);
                assert(row_views(rows@) =~= Seq::empty().push(v));
            }
        }
        let ghost first = row_views(rows@);
        let mut i: usize = 0;
        while i < self.tasks.queue.len()
            invariant
                i <= self.tasks.queue@.len(),
                row_views(rows@) == queue_rows(
                    first,
                    self.task_log@,
                    self.tasks.queue@,
                    i as int,
                ),
            decreases self.tasks.queue@.len() - i,
        {
            let ghost before = row_views(rows@);
            if let Some(row) = self.row(self.tasks.queue[i].log_id, false) {
                let ghost v = row@;
                rows.push(row);
                assert(row_views(rows@) =~= before.push(v));
            }
            i += 1;
        }
        rows
    }

    /// The update plans of all sources.
    pub fn schedule(&self) -> (r: Vec<ScheduleRow>)
        ensures
            r.len() == built_ins().len(),
            forall|i: int|
                0 <= i < r.len() ==> (#[trigger] r@[i])@ == schedule_row(
                    crate::config::all_settings(self.config@),
                    i,
                ),
    {
        let map = self.config.source_settings_map();
        let all = registry();
        let mut rows: Vec<ScheduleRow> = Vec::new();
        let mut i: usize = 0;
        while i < all.len()
            invariant
                i <= all.len(),
                all@ == built_ins(),
                map@ == crate::config::all_settings(self.config@),
                rows.len() == i,
                forall|j: int| 0 <= j < i ==> (#[trigger] rows@[j])@ == schedule_row(map@, j),
            decreases all.len() - i,
        {
            let id = all[i].id();
            let p = plan_for(&map, id);
            rows.push(
                ScheduleRow {
                    source: id,
                    enabled: p.enabled,
                    interval: p.interval,
                    last: p.last,
                    next_due: p.last.wrapping_add(p.interval),
                },
            );
            i += 1;
        }
        rows
    }
}

/// A line of the gallery: file, title, source and time of the download.
pub open spec fn image_row(v: ImageView) -> (Seq<char>, Seq<char>, Seq<char>, i64) {
    (v.path, v.meta.title, v.meta.source, v.meta.downloaded_at)
}

/// The lines of the gallery.
pub fn image_rows(images: &Vec<StoredImage>) -> (r: Vec<(String, String, String, i64)>)
    ensures
        r.len() == images.len(),
        forall|i: int|
            0 <= i < r.len() ==> ((#[trigger] r@[i]).0@, r@[i].1@, r@[i].2@, r@[i].3) == image_row(
                images@[i]@,
            ),
{
    let mut out: Vec<(String, String, String, i64)> = Vec::new();
    let mut i: usize = 0;
    while i < images.len()
        invariant
            i <= images.len(),
            out.len() == i,
            forall|j: int|
                0 <= j < i ==> ((#[trigger] out@[j]).0@, out@[j].1@, out@[j].2@, out@[j].3)
                    == image_row(images@[j]@),
        decreases images.len() - i,
    {
        let image = &images[i];
        out.push(
            (
                image.path.clone(),
                image.meta.title.clone(),
                image.meta.source.clone(),
                image.meta.downloaded_at,
            ),
        );
        i += 1;
    }
    out
}

/// A line of the history: file, source, title, copyright and time; no
/// copyright is an empty one.
pub open spec fn history_row(e: HistoryEntry) -> (
    Seq<char>,
    Seq<char>,
    Seq<char>,
    Seq<char>,
    i64,
) {
    (
        e.file@,
        e.source@,
        e.title@,
        match e.copyright {
            Some(c) => c@,
            None => Seq::empty(),
        },
        e.applied_at,
    )
}

/// `rows` are the lines of the history.
pub open spec fn are_history_rows(
    rows: Seq<(String, String, String, String, i64)>,
    entries: Seq<HistoryEntry>,
) -> bool {
    &&& rows.len() == entries.len()
    &&& forall|i: int|
        0 <= i < rows.len() ==> (
            (#[trigger] rows[i]).0@,
            rows[i].1@,
            rows[i].2@,
            rows[i].3@,
            rows[i].4,
        ) == history_row(entries[i])
}

/// The lines of the history.
pub fn history_rows(entries: &Vec<HistoryEntry>) -> (r: Vec<(String, String, String, String, i64)>)
    ensures
        are_history_rows(r@, entries@),
{
    let mut out: Vec<(String, String, String, String, i64)> = Vec::new();
    let mut i: usize = 0;
    while i < entries.len()
        invariant
            i <= entries.len(),
            out.len() == i,
            forall|j: int|
                0 <= j < i ==> (
                    (#[trigger] out@[j]).0@,
                    out@[j].1@,
                    out@[j].2@,
                    out@[j].3@,
                    out@[j].4,
                ) == history_row(entries@[j]),
        decreases entries.len() - i,
    {
        let e = &entries[i];
        let copyright = match &e.copyright {
            Some(c) => c.clone(),
            None => {
                let none = String::new();
                assert(none@ =~= Seq::<char>::empty());
                none
            },
        };
        out.push((e.file.clone(), e.source.clone(), e.title.clone(), copyright, e.applied_at));
        i += 1;
    }
    out
}

/// A history entry from its line: an empty copyright is none.
pub fn entry_from_row(row: (String, String, String, String, i64)) -> (r: HistoryEntry)
    ensures
        r.file@ == row.0@,
        r.source@ == row.1@,
        r.title@ == row.2@,
        crate::text::opt_text(r.copyright) == crate::json::filled(Some(row.3@)),
        r.applied_at == row.4,
        history_row(r) == (row.0@, row.1@, row.2@, row.3@, row.4),
{
    let (file, source, title, copyright, applied_at) = row;
    let ghost c = copyright@;
    let copyright = crate::json::filled_string(Some(copyright));
    if copyright.is_none() {
        assert(c =~= Seq::<char>::empty());
    }
    HistoryEntry { file, source, title, copyright, applied_at }
}

/// A line of the timeline.
#[derive(Debug)]
pub struct LogRow {
    pub start_ts: i64,
    pub label: String,
    pub kind: String,
    pub catchup: bool,
    pub finished: bool,
    pub success: bool,
    pub error: String,
    pub done: i32,
    pub total: i32,
    pub retries: i32,
}

/// The line of a log entry.
pub open spec fn is_log_row(row: LogRow, e: TaskLogEntry) -> bool {
    &&& row.start_ts == e.start_ts
    &&& row.label@ == e.label@
    &&& row.kind@ == e.kind@
    &&& row.catchup == e.catchup
    &&& row.finished == (e.end_ts != 0)
    &&& row.success == e.success
    &&& row.error@ == e.error@
    &&& row.done == e.done
    &&& row.total == e.total
    &&& row.retries == e.retries
}

/// The lines of the timeline, newest first.
pub fn log_rows(entries: &Vec<TaskLogEntry>) -> (r: Vec<LogRow>)
    ensures
        r.len() == entries.len(),
        forall|i: int| 0 <= i < r.len() ==> is_log_row(#[trigger] r@[i], entries@[i]),
{
    let mut out: Vec<LogRow> = Vec::new();
    let mut i: usize = 0;
    while i < entries.len()
        invariant
            i <= entries.len(),
            out.len() == i,
            forall|j: int| 0 <= j < i ==> is_log_row(#[trigger] out@[j], entries@[j]),
        decreases entries.len() - i,
    {
        let e = &entries[i];
        out.push(
            LogRow {
                start_ts: e.start_ts,
                label: e.label.clone(),
                kind: e.kind.clone(),
                catchup: e.catchup,
                finished: e.end_ts != 0,
                success: e.success,
                error: e.error.clone(),
                done: e.done,
                total: e.total,
                retries: e.retries,
            },
        );
        i += 1;
    }
    out
}

/// What the service is to do, beyond the reply.
#[derive(Debug)]
pub enum Action {
    Nothing,
    /// Update a source.
    Update(String),
    /// Change the wallpaper source and its mode.
    SetSource(String, String),
    ApplyRule,
    ApplyLatest(String),
    ApplyRandom(String),
    ApplyFile(String),
    ApplyPrevious,
    Cancel(u64),
    /// Save the history; a failure changes nothing.
    SaveHistory,
    /// Clear the history, step by step.
    ClearHistory,
}

/// What a request is answered.
#[derive(Debug)]
pub enum Reply {
    Done,
    Status { source: String, mode: String, file: String },
    Message(String),
    /// The lines of the images of a source, which are to be listed.
    Images(String),
    History(Vec<(String, String, String, String, i64)>),
    Tasks(Vec<TaskRow>),
    Schedule(Vec<ScheduleRow>),
    TaskLog(Vec<LogRow>),
    UnknownSource(String),
    UnknownMethod,
}

pub open spec fn known(source: Seq<char>) -> bool {
    exists|s: BuiltIn| #[trigger] s.spec_id() == source
}

/// The message about an unknown source.
pub open spec fn unknown_text(label: Seq<char>, source: Seq<char>) -> Seq<char> {
    label + ": "@ + source
}

pub open spec fn answered(
    d: Daemon,
    method: Seq<char>,
    params: Params,
    label: Seq<char>,
    reply: Reply,
    action: Action,
) -> bool {
    match method_named(method) {
        None => reply is UnknownMethod && action is Nothing,
        Some(Method::GetStatus) => action is Nothing && (reply matches Reply::Status {
            source,
            mode,
            file,
        } && source@ == text_under(d.config@, "wallpaper-source"@) && mode@ == mode_of(
            d.config@,
            source@,
        ) && file@ == (if d.history@.len() > 0 {
            d.history@[0].file@
        } else {
            Seq::empty()
        })),
        Some(Method::GetLastError) => action is Nothing && (reply matches Reply::Message(m) && m@
            == d.last_error@),
        Some(Method::FetchNow) => if known(params.first@) {
            reply is Done && (action matches Action::Update(s) && s@ == params.first@)
        } else {
            action is Nothing && (reply matches Reply::UnknownSource(m) && m@ == unknown_text(
                label,
                params.first@,
            ))
        },
        Some(Method::GetSourceImages) => action is Nothing && (reply matches Reply::Images(s) && s@
            == params.first@),
        Some(Method::SetWallpaperSource) => if params.first@.len() == 0 || known(params.first@) {
            reply is Done && (action matches Action::SetSource(s, m) && s@ == params.first@ && m@
                == params.second@)
        } else {
            action is Nothing && (reply matches Reply::UnknownSource(m) && m@ == unknown_text(
                label,
                params.first@,
            ))
        },
        Some(Method::ApplyWallpaper) => reply is Done && action is ApplyRule,
        Some(Method::ApplyLatest) => reply is Done && (action matches Action::ApplyLatest(s) && s@
            == params.first@),
        Some(Method::ApplyRandom) => reply is Done && (action matches Action::ApplyRandom(s) && s@
            == params.first@),
        Some(Method::ApplyFile) => reply is Done && (action matches Action::ApplyFile(p) && p@
            == params.first@),
        Some(Method::Previous) => reply is Done && action is ApplyPrevious,
        Some(Method::GetHistory) => action is Nothing && (reply matches Reply::History(rows)
            && are_history_rows(rows@, d.history@)),
        Some(Method::GetTasks) => action is Nothing && (reply matches Reply::Tasks(rows)
            && row_views(rows@) == task_rows(d)),
        Some(Method::CancelTask) => reply is Done && (if params.number >= 0 {
            action == Action::Cancel(params.number as u64)
        } else {
            action is Nothing
        }),
        Some(Method::GetSchedule) => action is Nothing && (reply matches Reply::Schedule(rows)
            && rows.len() == built_ins().len() && (forall|i: int|
            0 <= i < rows.len() ==> (#[trigger] rows@[i])@ == schedule_row(
                crate::config::all_settings(d.config@),
                i,
            ))),
        Some(Method::GetTaskLog) => action is Nothing && (reply matches Reply::TaskLog(rows)
            && rows.len() == d.task_log@.len() && (forall|i: int|
            0 <= i < rows.len() ==> is_log_row(#[trigger] rows@[i], d.task_log@[i]))),
        Some(Method::HistoryRemove) => reply is Done && (if 0 <= params.number
            < d.history@.len() {
            action is SaveHistory
        } else {
            action is Nothing
        }),
        Some(Method::ClearHistory) => reply is Done && action is ClearHistory,
    }
}

/// The history once a request was answered.
pub open spec fn history_after(
    history: Seq<HistoryEntry>,
    method: Seq<char>,
    number: i64,
) -> Seq<HistoryEntry> {
    match method_named(method) {
        Some(Method::HistoryRemove) => if 0 <= number < history.len() {
            history.remove(number as int)
        } else {
            history
        },
        _ => history,
    }
}

fn unknown_source(label: &str, source: &str) -> (r: Reply)
    ensures
        r matches Reply::UnknownSource(m) && m@ == unknown_text(label@, source@),
{
    Reply::UnknownSource(concat(concat(label, ": ").as_str(), source))
}

fn is_known(source: &str) -> (r: bool)
    ensures
        r == known(source@),
{
    let found = by_id(source);
    proof {
        if let Some(s) = found {
            assert(s.spec_id() == source@);
        }
    }
    found.is_some()
}

/// Answers a request. `label` is the translated beginning of the message about
/// an unknown source.
pub fn handle_method(daemon: &mut Daemon, method: &str, params: &Params, label: &str) -> (r: (
    Reply,
    Action,
))
    ensures
        answered(*old(daemon), method@, *params, label@, r.0, r.1),
        final(daemon).history@ == history_after(old(daemon).history@, method@, params.number),
        *final(daemon) == (Daemon { history: final(daemon).history, ..*old(daemon) }),
{
    let m = match Method::parse(method) {
        Some(m) => m,
        None => {
            return (Reply::UnknownMethod, Action::Nothing);
        },
    };
    let first = params.first.as_str();
    match m {
        Method::GetStatus => {
            let source = daemon.config.wallpaper_source();
            let mode = daemon.config.source_mode(source.as_str());
            let file = match daemon.history.current() {
                Some(e) => e.file.clone(),
                None => {
                    let none = String::new();
                    assert(none@ =~= Seq::<char>::empty());
                    none
                },
            };
            (Reply::Status { source, mode, file }, Action::Nothing)
        },
        Method::GetLastError => (Reply::Message(daemon.last_error.clone()), Action::Nothing),
        Method::FetchNow => if is_known(first) {
            (Reply::Done, Action::Update(params.first.clone()))
        } else {
            (unknown_source(label, first), Action::Nothing)
        },
        Method::GetSourceImages => (Reply::Images(params.first.clone()), Action::Nothing),
        Method::SetWallpaperSource => if first.is_empty() || is_known(first) {
            (Reply::Done, Action::SetSource(params.first.clone(), params.second.clone()))
        } else {
            (unknown_source(label, first), Action::Nothing)
        },
        Method::ApplyWallpaper => (Reply::Done, Action::ApplyRule),
        Method::ApplyLatest => (Reply::Done, Action::ApplyLatest(params.first.clone())),
        Method::ApplyRandom => (Reply::Done, Action::ApplyRandom(params.first.clone())),
        Method::ApplyFile => (Reply::Done, Action::ApplyFile(params.first.clone())),
        Method::Previous => (Reply::Done, Action::ApplyPrevious),
        Method::GetHistory => (
            Reply::History(history_rows(daemon.history.entries())),
            Action::Nothing,
        ),
        Method::GetTasks => (Reply::Tasks(daemon.task_list()), Action::Nothing),
        Method::CancelTask => if params.number >= 0 {
            (Reply::Done, Action::Cancel(params.number as u64))
        } else {
            (Reply::Done, Action::Nothing)
        },
        Method::GetSchedule => (Reply::Schedule(daemon.schedule()), Action::Nothing),
        Method::GetTaskLog => (
            Reply::TaskLog(log_rows(daemon.task_log.entries())),
            Action::Nothing,
        ),
        Method::HistoryRemove => {
            let n: usize = daemon.history.entries().len();
            if params.number >= 0 && (params.number as u64) < n as u64 {
                daemon.history.remove(params.number as usize);
                (Reply::Done, Action::SaveHistory)
            } else {
                (Reply::Done, Action::Nothing)
            }
        },
        Method::ClearHistory => (Reply::Done, Action::ClearHistory),
    }
}

} // verus!
