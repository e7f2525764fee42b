//! What the service answers to each of its methods.

use vstd::prelude::*;

use crate::config::mode_of;
use crate::daemon::Daemon;
use crate::json::JsonView;
use crate::laws::documents::holds;
use crate::laws::settings::{lemma_plan_read, lemma_texts_read};
use crate::service::{
    answered, entry_of, history_after, history_row, image_row, is_log_row, known, method_named,
    row_of, schedule_row, task_rows, with_row, Action, Method, Params, Reply,
};
use crate::history::HistoryEntry;
use crate::source::{built_ins, Source};
use crate::storage::ImageView;
use crate::tasklog::TaskLogEntry;

verus! {

/// The names of the methods. Three of them apply the wallpaper by the rule.
pub proof fn lemma_method_names()
    ensures
        method_named("GetStatus"@) == Some(Method::GetStatus),
        method_named("GetLastError"@) == Some(Method::GetLastError),
        method_named("FetchNow"@) == Some(Method::FetchNow),
        method_named("GetSourceImages"@) == Some(Method::GetSourceImages),
        method_named("SetWallpaperSource"@) == Some(Method::SetWallpaperSource),
        method_named("ApplyWallpaper"@) == Some(Method::ApplyWallpaper),
        method_named("Next"@) == Some(Method::ApplyWallpaper),
        method_named("ApplyNow"@) == Some(Method::ApplyWallpaper),
        method_named("ApplyLatest"@) == Some(Method::ApplyLatest),
        method_named("ApplyRandom"@) == Some(Method::ApplyRandom),
        method_named("ApplyFile"@) == Some(Method::ApplyFile),
        method_named("Previous"@) == Some(Method::Previous),
        method_named("GetHistory"@) == Some(Method::GetHistory),
        method_named("GetTasks"@) == Some(Method::GetTasks),
        method_named("CancelTask"@) == Some(Method::CancelTask),
        method_named("GetSchedule"@) == Some(Method::GetSchedule),
        method_named("GetTaskLog"@) == Some(Method::GetTaskLog),
        method_named("HistoryRemove"@) == Some(Method::HistoryRemove),
        method_named("ClearHistory"@) == Some(Method::ClearHistory),
        method_named(Seq::empty()) is None,
{
    reveal_strlit("GetStatus");
    reveal_strlit("GetLastError");
    reveal_strlit("FetchNow");
    reveal_strlit("GetSourceImages");
    reveal_strlit("SetWallpaperSource");
    reveal_strlit("ApplyWallpaper");
    reveal_strlit("Next");
    reveal_strlit("ApplyNow");
    reveal_strlit("ApplyLatest");
    reveal_strlit("ApplyRandom");
    reveal_strlit("ApplyFile");
    reveal_strlit("Previous");
    reveal_strlit("GetHistory");
    reveal_strlit("GetTasks");
    reveal_strlit("CancelTask");
    reveal_strlit("GetSchedule");
    reveal_strlit("GetTaskLog");
    reveal_strlit("HistoryRemove");
    reveal_strlit("ClearHistory");
    assert("GetStatus"@.len() == 9);
    assert("GetLastError"@.len() == 12);
    assert("FetchNow"@.len() == 8);
    assert("GetSourceImages"@.len() == 15);
    assert("SetWallpaperSource"@.len() == 18);
    assert("ApplyWallpaper"@.len() == 14);
    assert("Next"@.len() == 4);
    assert("ApplyNow"@.len() == 8);
    assert("ApplyLatest"@.len() == 11);
    assert("ApplyRandom"@.len() == 11);
    assert("ApplyFile"@.len() == 9);
    assert("Previous"@.len() == 8);
    assert("GetHistory"@.len() == 10);
    assert("GetTasks"@.len() == 8);
    assert("CancelTask"@.len() == 10);
    assert("GetSchedule"@.len() == 11);
    assert("GetTaskLog"@.len() == 10);
    assert("HistoryRemove"@.len() == 13);
    assert("ClearHistory"@.len() == 12);
    assert("GetStatus"@[0] != "ApplyFile"@[0]);
    assert("GetLastError"@[0] != "ClearHistory"@[0]);
    assert("FetchNow"@[0] != "ApplyNow"@[0]);
    assert("FetchNow"@[0] != "Previous"@[0]);
    assert("FetchNow"@[0] != "GetTasks"@[0]);
    assert("ApplyNow"@[0] != "Previous"@[0]);
    assert("ApplyNow"@[0] != "GetTasks"@[0]);
    assert("ApplyLatest"@[5] != "ApplyRandom"@[5]);
    assert("ApplyLatest"@[0] != "GetSchedule"@[0]);
    assert("ApplyRandom"@[0] != "GetSchedule"@[0]);
    assert("Previous"@[0] != "GetTasks"@[0]);
    assert("GetHistory"@[0] != "CancelTask"@[0]);
    assert("GetHistory"@[3] != "GetTaskLog"@[3]);
    assert("CancelTask"@[0] != "GetTaskLog"@[0]);
}

/// Sources are known by their seven ids.
pub proof fn lemma_known_sources(source: Seq<char>)
    ensures
        known(source) <==> source == "bing"@ || source == "spotlight"@ || source == "nasa"@ || source
            == "wikimedia"@ || source == "earthview"@ || source == "picsum"@ || source
            == "europeana"@,
{
    assert(crate::source::BuiltIn::Bing.spec_id() == "bing"@);
    assert(crate::source::BuiltIn::Spotlight.spec_id() == "spotlight"@);
    assert(crate::source::BuiltIn::Nasa.spec_id() == "nasa"@);
    assert(crate::source::BuiltIn::Wikimedia.spec_id() == "wikimedia"@);
    assert(crate::source::BuiltIn::EarthView.spec_id() == "earthview"@);
    assert(crate::source::BuiltIn::Picsum.spec_id() == "picsum"@);
    assert(crate::source::BuiltIn::Europeana.spec_id() == "europeana"@);
}

/// A request to update a known source is answered at once, and the source is
/// updated; one for another source is refused by its name, and nothing is done.
pub proof fn lemma_fetch_now(
    d: Daemon,
    params: Params,
    label: Seq<char>,
    reply: Reply,
    action: Action,
)
    requires
        answered(d, "FetchNow"@, params, label, reply, action),
    ensures
        params.first@ == "bing"@ || params.first@ == "nasa"@ || params.first@ == "picsum"@
            ==> reply is Done && action is Update && action->Update_0@ == params.first@,
        known(params.first@) ==> reply is Done && action is Update && action->Update_0@
            == params.first@,
        !known(params.first@) ==> action is Nothing && reply is UnknownSource
            && reply->UnknownSource_0@ == label + ": "@ + params.first@,
{
    lemma_method_names();
    lemma_known_sources(params.first@);
}

/// A request to change the wallpaper source is carried out for a known source,
/// and for none, with the mode that it names.
pub proof fn lemma_set_source(
    d: Daemon,
    params: Params,
    label: Seq<char>,
    reply: Reply,
    action: Action,
)
    requires
        answered(d, "SetWallpaperSource"@, params, label, reply, action),
    ensures
        params.first@.len() == 0 || known(params.first@) ==> reply is Done && action is SetSource
            && action->SetSource_0@ == params.first@ && action->SetSource_1@ == params.second@,
        params.first@.len() > 0 && !known(params.first@) ==> action is Nothing
            && reply is UnknownSource && reply->UnknownSource_0@ == label + ": "@ + params.first@,
{
    lemma_method_names();
}

/// The requests to apply a wallpaper name what is applied.
pub proof fn lemma_apply_requests(
    d: Daemon,
    method: Seq<char>,
    params: Params,
    label: Seq<char>,
    reply: Reply,
    action: Action,
)
    requires
        answered(d, method, params, label, reply, action),
    ensures
        method == "ApplyLatest"@ ==> reply is Done && action is ApplyLatest
            && action->ApplyLatest_0@ == params.first@,
        method == "ApplyRandom"@ ==> reply is Done && action is ApplyRandom
            && action->ApplyRandom_0@ == params.first@,
        method == "ApplyFile"@ ==> reply is Done && action is ApplyFile && action->ApplyFile_0@
            == params.first@,
        method == "ApplyWallpaper"@ || method == "Next"@ || method == "ApplyNow"@ ==> reply is Done
            && action is ApplyRule,
        method == "Previous"@ ==> reply is Done && action is ApplyPrevious,
        method == "ClearHistory"@ ==> reply is Done && action is ClearHistory,
        method == "CancelTask"@ && params.number >= 0 ==> reply is Done && action is Cancel
            && action->Cancel_0 == params.number,
        method == "CancelTask"@ && params.number < 0 ==> reply is Done && action is Nothing,
        method.len() == 0 ==> reply is UnknownMethod && action is Nothing,
{
    lemma_method_names();
    if method.len() == 0 {
        assert(method =~= Seq::empty());
    }
}

/// The status tells the source in use, its mode and the newest wallpaper.
pub proof fn lemma_status(
    d: Daemon,
    params: Params,
    label: Seq<char>,
    reply: Reply,
    action: Action,
    source: Seq<char>,
)
    requires
        answered(d, "GetStatus"@, params, label, reply, action),
        holds(d.config@, "wallpaper-source"@, JsonView::Str(source)),
    ensures
        action is Nothing,
        reply is Status,
        reply->source@ == source,
        reply->mode@ == mode_of(d.config@, source),
        d.history@.len() > 0 ==> reply->file@ == d.history@[0].file@,
        d.history@.len() == 0 ==> reply->file@.len() == 0,
{
    lemma_method_names();
    lemma_texts_read(d.config@, "wallpaper-source"@, source, Seq::empty());
}

/// Questions change nothing, and tell what the daemon has.
pub proof fn lemma_questions(
    d: Daemon,
    method: Seq<char>,
    params: Params,
    label: Seq<char>,
    reply: Reply,
    action: Action,
)
    requires
        answered(d, method, params, label, reply, action),
    ensures
        method == "GetLastError"@ ==> action is Nothing && reply is Message && reply->Message_0@
            == d.last_error@,
        method == "GetSourceImages"@ ==> action is Nothing && reply is Images && reply->Images_0@
            == params.first@,
        method == "GetHistory"@ ==> action is Nothing && reply is History && reply->History_0@.len()
            == d.history@.len() && forall|i: int|
            0 <= i < d.history@.len() ==> (#[trigger] reply->History_0@[i]).0@
                == d.history@[i].file@ && reply->History_0@[i].1@ == d.history@[i].source@
                && reply->History_0@[i].2@ == d.history@[i].title@ && reply->History_0@[i].4
                == d.history@[i].applied_at,
        method == "GetTaskLog"@ ==> action is Nothing && reply is TaskLog
            && reply->TaskLog_0@.len() == d.task_log@.len() && forall|i: int|
            0 <= i < d.task_log@.len() ==> {
                let row = #[trigger] reply->TaskLog_0@[i];
                let e = d.task_log@[i];
                &&& row.label@ == e.label@
                &&& row.kind@ == e.kind@
                &&& row.start_ts == e.start_ts
                &&& row.finished == (e.end_ts != 0)
                &&& row.success == e.success
                &&& row.error@ == e.error@
                &&& row.catchup == e.catchup
                &&& row.done == e.done && row.total == e.total && row.retries == e.retries
            },
        method == "GetSchedule"@ ==> action is Nothing && reply is Schedule
            && reply->Schedule_0@.len() == 7,
{
    lemma_method_names();
    if method == "GetHistory"@ {
        assert forall|i: int| 0 <= i < d.history@.len() implies (
        #[trigger] reply->History_0@[i]).0@ == d.history@[i].file@ && reply->History_0@[i].1@
            == d.history@[i].source@ && reply->History_0@[i].2@ == d.history@[i].title@
            && reply->History_0@[i].4 == d.history@[i].applied_at by {
            assert(history_row(d.history@[i]).0 == d.history@[i].file@);
        }
    }
    if method == "GetTaskLog"@ {
        assert forall|i: int| 0 <= i < d.task_log@.len() implies {
            let row = #[trigger] reply->TaskLog_0@[i];
            let e = d.task_log@[i];
            &&& row.label@ == e.label@
            &&& row.kind@ == e.kind@
            &&& row.start_ts == e.start_ts
            &&& row.finished == (e.end_ts != 0)
            &&& row.success == e.success
            &&& row.error@ == e.error@
            &&& row.catchup == e.catchup
            &&& row.done == e.done && row.total == e.total && row.retries == e.retries
        } by {
            assert(is_log_row(reply->TaskLog_0@[i], d.task_log@[i]));
        }
    }
}

/// A removal takes the entry of its number out of the history, and only that; a
/// number that none has takes nothing. No other method touches the history.
pub proof fn lemma_history_after(
    history: Seq<HistoryEntry>,
    number: i64,
    i: int,
)
    requires
        0 <= i < history.len(),
    ensures
        0 <= number < history.len() ==> history_after(history, "HistoryRemove"@, number).len()
            == history.len() - 1,
        0 <= number < history.len() && i < number ==> history_after(
            history,
            "HistoryRemove"@,
            number,
        )[i] == history[i],
        0 <= number < i ==> history_after(history, "HistoryRemove"@, number)[i - 1] == history[i],
        number < 0 || number >= history.len() ==> history_after(history, "HistoryRemove"@, number)
            == history,
        history_after(history, "GetHistory"@, number) == history,
        history_after(history, "Previous"@, number) == history,
        history_after(history, "FetchNow"@, number) == history,
{
    lemma_method_names();
}

/// The schedule tells each source's switch, interval and last update as they are
/// set, and when it is due next.
pub proof fn lemma_schedule_row(
    map: Seq<(Seq<char>, JsonView)>,
    own: Seq<(Seq<char>, JsonView)>,
    i: int,
    enabled: bool,
    interval: i64,
    last: i64,
)
    requires
        0 <= i < 7,
        holds(map, built_ins()[i].spec_id(), JsonView::Object(own)),
        holds(own, "update-enabled"@, JsonView::Bool(enabled)),
        holds(own, "update-interval"@, JsonView::Int(interval as int)),
        holds(own, "last-updated-at"@, JsonView::Int(last as int)),
        300 <= interval <= 604800,
    ensures
        schedule_row(map, i).source == built_ins()[i].spec_id(),
        schedule_row(map, i).enabled == enabled,
        schedule_row(map, i).interval == interval,
        schedule_row(map, i).last == last,
        last + interval <= i64::MAX ==> schedule_row(map, i).next_due == last + interval,
{
    lemma_plan_read(map, own, built_ins()[i].spec_id(), enabled, interval, last);
}

/// The order in which the sources are listed.
pub proof fn lemma_order_of_sources()
    ensures
        built_ins().len() == 7,
        built_ins()[0].spec_id() == "bing"@,
        built_ins()[1].spec_id() == "spotlight"@,
        built_ins()[2].spec_id() == "nasa"@,
        built_ins()[3].spec_id() == "wikimedia"@,
        built_ins()[4].spec_id() == "earthview"@,
        built_ins()[5].spec_id() == "picsum"@,
        built_ins()[6].spec_id() == "europeana"@,
{
}

/// A task is shown with the label and the progress of its newest log entry; one
/// that has none is not shown.
pub proof fn lemma_task_row(log: Seq<TaskLogEntry>, id: u64, running: bool, k: int)
    requires
        0 <= k <= log.len(),
        id <= i64::MAX,
        forall|i: int| 0 <= i < k ==> (#[trigger] log[i]).id != id,
    ensures
        k < log.len() && log[k].id == id ==> {
            let row = row_of(log, id, running);
            &&& row is Some
            &&& row->0.id == id
            &&& row->0.label == log[k].label@
            &&& row->0.running == running
            &&& row->0.done == log[k].done
            &&& row->0.total == log[k].total
        },
        k == log.len() ==> row_of(log, id, running) is None,
{
    lemma_entry_from(log, id, 0, k);
}

proof fn lemma_entry_from(log: Seq<TaskLogEntry>, id: u64, from: int, k: int)
    requires
        0 <= from <= k <= log.len(),
        forall|i: int| from <= i < k ==> (#[trigger] log[i]).id != id,
    ensures
        k < log.len() && log[k].id == id ==> entry_of(log, id, from) == k,
        k == log.len() ==> entry_of(log, id, from) == log.len(),
    decreases k - from,
{
    if from < k {
        assert(log[from].id != id);
        lemma_entry_from(log, id, from + 1, k);
    }
}

/// The running task is shown first, then those that wait, in their order, where
/// each has a log entry.
pub proof fn lemma_task_rows(d: Daemon)
    requires
        d.tasks.running_id is Some,
        entry_of(d.task_log@, d.tasks.running_id->0, 0) < d.task_log@.len(),
        forall|i: int|
            0 <= i < d.tasks.queue@.len() ==> entry_of(
                d.task_log@,
                (#[trigger] d.tasks.queue@[i]).log_id,
                0,
            ) < d.task_log@.len(),
    ensures
        task_rows(d).len() == d.tasks.queue@.len() + 1,
        Some(task_rows(d)[0]) == row_of(d.task_log@, d.tasks.running_id->0, true),
        forall|i: int|
            0 <= i < d.tasks.queue@.len() ==> Some(#[trigger] task_rows(d)[i + 1]) == row_of(
                d.task_log@,
                d.tasks.queue@[i].log_id,
                false,
            ),
{
    let first = with_row(Seq::empty(), row_of(d.task_log@, d.tasks.running_id->0, true));
    lemma_queue_rows(first, d, d.tasks.queue@.len() as int);
}

proof fn lemma_queue_rows(first: Seq<crate::service::TaskRowView>, d: Daemon, n: int)
    requires
        0 <= n <= d.tasks.queue@.len(),
        first.len() == 1,
        forall|i: int|
            0 <= i < d.tasks.queue@.len() ==> entry_of(
                d.task_log@,
                (#[trigger] d.tasks.queue@[i]).log_id,
                0,
            ) < d.task_log@.len(),
    ensures
        ({
            let rows = crate::service::queue_rows(first, d.task_log@, d.tasks.queue@, n);
            &&& rows.len() == n + 1
            &&& rows[0] == first[0]
            &&& forall|i: int|
                0 <= i < n ==> Some(#[trigger] rows[i + 1]) == row_of(
                    d.task_log@,
                    d.tasks.queue@[i].log_id,
                    false,
                )
        }),
    decreases n,
{
    if n > 0 {
        lemma_queue_rows(first, d, n - 1);
        let before = crate::service::queue_rows(first, d.task_log@, d.tasks.queue@, n - 1);
        let rows = crate::service::queue_rows(first, d.task_log@, d.tasks.queue@, n);
        assert(entry_of(d.task_log@, d.tasks.queue@[n - 1].log_id, 0) < d.task_log@.len());
        assert forall|i: int| 0 <= i < n implies Some(#[trigger] rows[i + 1]) == row_of(
            d.task_log@,
            d.tasks.queue@[i].log_id,
            false,
        ) by {
            if i < n - 1 {
                assert(rows[i + 1] == before[i + 1]);
            }
        }
    }
}

/// An image is shown by its path, its title, its source and its download.
pub proof fn lemma_image_row(v: ImageView)
    ensures
        image_row(v).0 == v.path,
        image_row(v).1 == v.meta.title,
        image_row(v).2 == v.meta.source,
        image_row(v).3 == v.meta.downloaded_at,
{
}

} // verus!
