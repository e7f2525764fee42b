//! When a source is updated, and how an update runs.

use vstd::prelude::*;

use crate::config::{
    clamp_interval, clamped, members_or_none, DEFAULT_MAX_IMAGES, DEFAULT_UPDATE_INTERVAL,
};
use crate::date::{day_number, day_with_number, earlier, valid, Date};
use crate::json::{bool_in, int_in, lookup, Json, JsonMap, JsonView};
use crate::laws::updates::lemma_tick_runs_what_is_due;
use crate::source::{built_ins, or_bool, or_int, registry, BuiltIn, Source, SourceSettings};

verus! {

/// Seconds after the start during which no missed update is made up for: the
/// network may not be up yet.
pub const CATCHUP_DELAY_SECS: i64 = 30;

/// Seconds between the attempts of a scheduled update.
pub const RETRY_DELAY_SECS: u64 = 30;

/// Automatic retries of a failed scheduled update.
pub const MAX_RETRIES: u32 = 3;

/// The settings of one source, among those of all sources.
pub fn settings_of(map: &JsonMap, id: &str) -> (r: SourceSettings)
    ensures
        r.0@ == members_or_none(lookup(map@, id@)),
{
    let found = map.get(id);
    match found {
        Some(Json::Object(m)) => {
            assert(m@ =~= found->0@->Object_0);
            SourceSettings(m.copy())
        },
        _ => SourceSettings(JsonMap::new()),
    }
}

/// The update plan of a source.
#[derive(Clone, Copy, Debug, PartialEq, Eq, Structural)]
pub struct Plan {
    pub enabled: bool,
    /// Seconds between updates.
    pub interval: i64,
    /// Unix timestamp of the last attempt; 0 where there was none.
    pub last: i64,
}

/// The update plan in the settings of a source.
pub open spec fn plan_in(settings: Seq<(Seq<char>, JsonView)>) -> Plan {
    Plan {
        enabled: or_bool(bool_in(lookup(settings, "update-enabled"@)), false),
        interval: clamped(
            or_int(int_in(lookup(settings, "update-interval"@)), DEFAULT_UPDATE_INTERVAL),
        ),
        last: or_int(int_in(lookup(settings, "last-updated-at"@)), 0),
    }
}

/// The update plan of a source, among the settings of all sources.
pub open spec fn plan_of(map: Seq<(Seq<char>, JsonView)>, id: Seq<char>) -> Plan {
    plan_in(members_or_none(lookup(map, id)))
}

/// The update plan of a source, among the settings of all sources.
pub fn plan_for(map: &JsonMap, id: &str) -> (r: Plan)
    ensures
        r == plan_of(map@, id@),
{
    let s = settings_of(map, id);
    Plan {
        enabled: s.get_bool("update-enabled", false),
        interval: clamp_interval(s.get_i64("update-interval", DEFAULT_UPDATE_INTERVAL)),
        last: s.get_i64("last-updated-at", 0),
    }
}

/// The interval since the last attempt is over.
pub open spec fn is_due(p: Plan, now: int) -> bool {
    p.enabled && now - p.last >= p.interval
}

/// The run makes up for a missed window: the source was never updated, or a
/// whole interval has passed beyond the time that it was due.
pub open spec fn is_catchup(p: Plan, now: int) -> bool {
    p.last == 0 || now - p.last >= p.interval * 2
}

/// What a tick does about a source: nothing, or a run that is or is not a
/// catch-up. Catch-up runs wait for a while after the start.
pub open spec fn run_at(p: Plan, now: int, started_at: int) -> Option<bool> {
    if !is_due(p, now) {
        None
    } else if is_catchup(p, now) && now - started_at < CATCHUP_DELAY_SECS {
        None
    } else {
        Some(is_catchup(p, now))
    }
}

/// What a tick does about a source.
pub fn due_run(p: Plan, now: i64, started_at: i64) -> (r: Option<bool>)
    ensures
        r == run_at(p, now as int, started_at as int),
{
    if !p.enabled {
        return None;
    }
    let elapsed: i128 = now as i128 - p.last as i128;
    let interval: i128 = p.interval as i128;
    if elapsed < interval {
        return None;
    }
    let catchup = p.last == 0 || elapsed >= interval * 2;
    let up: i128 = now as i128 - started_at as i128;
    if catchup && up < CATCHUP_DELAY_SECS as i128 {
        return None;
    }
    Some(catchup)
}

/// A run that a tick starts.
#[derive(Clone, Copy, Debug, PartialEq, Eq, Structural)]
pub struct DueRun {
    pub source: BuiltIn,
    pub catchup: bool,
}

/// The runs that a tick starts for the first `n` sources.
pub open spec fn runs_among(
    map: Seq<(Seq<char>, JsonView)>,
    now: int,
    started_at: int,
    n: int,
) -> Seq<DueRun>
    decreases n,
{
    if n <= 0 {
        Seq::empty()
    } else {
        let source = built_ins()[n - 1];
        let before = runs_among(map, now, started_at, n - 1);
        match run_at(plan_of(map, source.spec_id()), now, started_at) {
            Some(catchup) => before.push(DueRun { source, catchup }),
            None => before,
        }
    }
}

/// The runs that a tick starts, in the order of the sources. `map` holds the
/// settings of all sources.
pub fn tick(map: &JsonMap, now: i64, started_at: i64) -> (r: Vec<DueRun>)
    ensures
        r@ == runs_among(map@, now as int, started_at as int, built_ins().len() as int),
        forall|source: BuiltIn, catchup: bool|
            #[trigger] r@.contains(DueRun { source, catchup }) <==> run_at(
                plan_of(map@, source.spec_id()),
                now as int,
                started_at as int,
            ) == Some(catchup),
{
    let all = registry();
    let mut out: Vec<DueRun> = Vec::new();
    let mut i: usize = 0;
    assert(out@ =~= runs_among(map@, now as int, started_at as int, 0));
    while i < all.len()
        invariant
            i <= all.len(),
            all@ == built_ins(),
            out@ == runs_among(map@, now as int, started_at as int, i as int),
        decreases all.len() - i,
    {
        let source = all[i];
        let plan = plan_for(map, source.id());
        if let Some(catchup) = due_run(plan, now, started_at) {
            out.push(DueRun { source, catchup });
        }
        i += 1;
    }
    proof {
        assert forall|source: BuiltIn, catchup: bool|
            #[trigger] out@.contains(DueRun { source, catchup }) <==> run_at(
                plan_of(map@, source.spec_id()),
                now as int,
                started_at as int,
            ) == Some(catchup) by {
            lemma_tick_runs_what_is_due(map@, now as int, started_at as int, source, catchup);
        }
    }
    out
}

/// A window passed while the service was not running.
pub open spec fn is_missed(p: Plan, now: int) -> bool {
    p.enabled && p.last > 0 && now - p.last > p.interval
}

pub open spec fn missed_among(map: Seq<(Seq<char>, JsonView)>, now: int, n: int) -> Seq<BuiltIn>
    decreases n,
{
    if n <= 0 {
        Seq::empty()
    } else {
        let source = built_ins()[n - 1];
        let before = missed_among(map, now, n - 1);
        if is_missed(plan_of(map, source.spec_id()), now) {
            before.push(source)
        } else {
            before
        }
    }
}

/// The sources with a window that passed while the service was not running.
pub fn missed_windows(map: &JsonMap, now: i64) -> (r: Vec<BuiltIn>)
    ensures
        r@ == missed_among(map@, now as int, built_ins().len() as int),
{
    let all = registry();
    let mut out: Vec<BuiltIn> = Vec::new();
    let mut i: usize = 0;
    assert(out@ =~= missed_among(map@, now as int, 0));
    while i < all.len()
        invariant
            i <= all.len(),
            all@ == built_ins(),
            out@ == missed_among(map@, now as int, i as int),
        decreases all.len() - i,
    {
        let source = all[i];
        let p = plan_for(map, source.id());
        if p.enabled && p.last > 0 && now as i128 - p.last as i128 > p.interval as i128 {
            out.push(source);
        }
        i += 1;
    }
    out
}

/// Once an attempt is stamped, no tick within the interval starts another run:
/// a waiting update is not queued twice.
pub proof fn lemma_stamped_not_due(p: Plan, now: i64, later: int, started_at: int)
    requires
        now <= later < now + p.interval,
    ensures
        run_at(Plan { last: now, ..p }, later, started_at) is None,
{
}

/// A missed window heals by itself: however long the machine was off, once the
/// grace period is over a tick starts one run, and marks it a catch-up where a
/// whole further interval was missed.
pub proof fn lemma_missed_window_heals(p: Plan, now: int, started_at: int)
    requires
        is_missed(p, now),
        now - started_at >= CATCHUP_DELAY_SECS,
    ensures
        run_at(p, now, started_at) is Some,
        now - p.last >= 2 * p.interval ==> run_at(p, now, started_at) == Some(true),
{
}

/// The number of earlier days that an update fetches, too.
pub open spec fn backfill_in(settings: &SourceSettings) -> int {
    let i = settings.i64_at("index"@, 0);
    if i < 0 {
        0
    } else if i > 7 {
        7
    } else {
        i as int
    }
}

/// An update of a source: one step for each day, from today backwards.
#[derive(Debug)]
pub struct UpdateRun {
    pub source: BuiltIn,
    pub today: Date,
    /// The number of days.
    pub total: u32,
    /// The days that are done.
    pub done: u32,
}

/// What an update does next.
#[derive(Clone, Copy, Debug, PartialEq, Eq, Structural)]
pub enum UpdateStep {
    /// The update was cancelled.
    Cancelled,
    /// The day is stored already; the progress changed.
    Skipped,
    /// Fetch the image of a day, this many days ago.
    Fetch { index: u32, day: Date },
    /// All days are done.
    Finished,
    /// There is no such day in the calendar.
    NoSuchDay,
}

impl UpdateRun {
    pub open spec fn wf(&self) -> bool {
        1 <= self.total <= 8 && self.done <= self.total && valid(self.today)
    }

    /// An update of a source, as configured.
    pub fn new(source: BuiltIn, settings: &SourceSettings, today: Date) -> (r: UpdateRun)
        requires
            valid(today),
        ensures
            r.wf(),
            r.source == source,
            r.today == today,
            r.total == backfill_in(settings) + 1,
            r.done == 0,
    {
        let i = settings.get_i64("index", 0);
        let backfill: u32 = if i < 0 {
            0
        } else if i > 7 {
            7
        } else {
            i as u32
        };
        UpdateRun { source, today, total: backfill + 1, done: 0 }
    }

    /// The day that comes next.
    pub fn day(&self) -> (r: Option<Date>)
        requires
            self.wf(),
        ensures
            r == day_with_number(day_number(self.today) - self.done),
            r is Some ==> valid(r->0),
    {
        earlier(self.today, self.done)
    }

    pub open spec fn step_spec(&self, cancelled: bool, stored: bool) -> UpdateStep {
        if self.done == self.total {
            UpdateStep::Finished
        } else if cancelled {
            UpdateStep::Cancelled
        } else {
            match day_with_number(day_number(self.today) - self.done) {
                None => UpdateStep::NoSuchDay,
                Some(day) => if self.source.is_daily() && stored {
                    UpdateStep::Skipped
                } else {
                    UpdateStep::Fetch { index: self.done, day }
                },
            }
        }
    }

    /// What comes next. `stored` says whether an image of the next day is
    /// stored; a source with one image a day then skips the day.
    pub fn next(&mut self, cancelled: bool, stored: bool) -> (r: UpdateStep)
        requires
            old(self).wf(),
        ensures
            r == old(self).step_spec(cancelled, stored),
            final(self).wf(),
            final(self).source == old(self).source,
            final(self).today == old(self).today,
            final(self).total == old(self).total,
            final(self).done == old(self).done + (if r == UpdateStep::Skipped {
                1int
            } else {
                0int
            }),
    {
        if self.done == self.total {
            return UpdateStep::Finished;
        }
        if cancelled {
            return UpdateStep::Cancelled;
        }
        match self.day() {
            None => UpdateStep::NoSuchDay,
            Some(day) => {
                if self.source.daily() && stored {
                    self.done = self.done + 1;
                    UpdateStep::Skipped
                } else {
                    UpdateStep::Fetch { index: self.done, day }
                }
            },
        }
    }

    /// The fetch of a day failed with `error`, and the update ends with this
    /// message: a fetch that was cancelled is no failure, whatever its helper
    /// left behind. `cancelled_text` says that the update was cancelled.
    pub fn failed(&self, cancelled: bool, error: String, cancelled_text: &str) -> (r: String)
        ensures
            r@ == (if cancelled {
                cancelled_text@
            } else {
                error@
            }),
    {
        if cancelled {
            cancelled_text.to_owned()
        } else {
            error
        }
    }

    /// The image of a day was fetched and stored. An update that was cancelled
    /// meanwhile ends; else the progress changes.
    pub fn fetched(&mut self, cancelled: bool) -> (goes_on: bool)
        requires
            old(self).wf(),
            old(self).done < old(self).total,
        ensures
            goes_on == !cancelled,
            final(self).wf(),
            final(self).source == old(self).source,
            final(self).today == old(self).today,
            final(self).total == old(self).total,
            final(self).done == old(self).done + (if goes_on {
                1int
            } else {
                0int
            }),
    {
        if cancelled {
            return false;
        }
        self.done = self.done + 1;
        true
    }
}

/// The most images that a source keeps; 0 means all.
pub open spec fn cap_in(settings: &SourceSettings) -> int {
    let max = settings.i64_at("max-images"@, DEFAULT_MAX_IMAGES);
    if max > 0 {
        max as int
    } else {
        0
    }
}

/// The most images that a source keeps; 0 means all.
pub fn image_cap(settings: &SourceSettings) -> (r: u64)
    ensures
        r == cap_in(settings),
        settings.i64_at("max-images"@, DEFAULT_MAX_IMAGES) > 0 ==> r == settings.i64_at(
            "max-images"@,
            DEFAULT_MAX_IMAGES,
        ),
        settings.i64_at("max-images"@, DEFAULT_MAX_IMAGES) <= 0 ==> r == 0,
{
    let max = settings.get_i64("max-images", DEFAULT_MAX_IMAGES);
    if max > 0 {
        max as u64
    } else {
        0
    }
}

/// What follows an attempt that failed.
#[derive(Clone, Copy, Debug, PartialEq, Eq, Structural)]
pub enum AfterFailure {
    /// The update failed.
    GiveUp,
    /// The update was cancelled.
    Cancelled,
    /// Wait, count a retry and try again.
    Retry,
}

/// What follows a failed attempt, after `retries` retries: a cancelled update
/// ends as cancelled, whatever its attempt failed with; scheduled updates are
/// retried, manual ones are not.
pub fn after_failure(scheduled: bool, retries: u32, cancelled: bool) -> (r: AfterFailure)
    ensures
        r == (if cancelled {
            AfterFailure::Cancelled
        } else if !scheduled || retries >= MAX_RETRIES {
            AfterFailure::GiveUp
        } else {
            AfterFailure::Retry
        }),
{
    if cancelled {
        AfterFailure::Cancelled
    } else if !scheduled || retries >= MAX_RETRIES {
        AfterFailure::GiveUp
    } else {
        AfterFailure::Retry
    }
}

/// What follows a look at the clock between two attempts.
#[derive(Clone, Copy, Debug, PartialEq, Eq, Structural)]
pub enum RetryWait {
    /// The update was cancelled: the wait ends at once.
    Cancelled,
    /// Wait on.
    Wait,
    /// Try again.
    Retry,
}

/// What follows after `waited` milliseconds between two attempts.
pub fn retry_wait(waited: u64, cancelled: bool) -> (r: RetryWait)
    ensures
        r == (if cancelled {
            RetryWait::Cancelled
        } else if waited < RETRY_DELAY_SECS * 1000 {
            RetryWait::Wait
        } else {
            RetryWait::Retry
        }),
{
    if cancelled {
        RetryWait::Cancelled
    } else if waited < RETRY_DELAY_SECS * 1000 {
        RetryWait::Wait
    } else {
        RetryWait::Retry
    }
}

} // verus!
