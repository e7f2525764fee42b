//! Scheduled updates: which sources a tick updates, which days an update
//! fetches, and how many images it leaves.

use vstd::prelude::*;

use crate::date::{day_number, valid, Date};
use crate::json::JsonView;
use crate::laws::documents::{
    holds, lacks, lemma_held, lemma_lacking, lemma_settings_read,
};
use crate::path::joined;
use crate::schedule::{
    cap_in, missed_among, plan_of, run_at, runs_among, DueRun, UpdateRun, UpdateStep,
};
use crate::source::{built_ins, lemma_registered, BuiltIn, Source, SourceSettings};
use crate::storage::{listing, FileView};
use crate::text::free_of;
use crate::trim_laws::{after_deletes, lemma_trim_keeps_newest, separate};

verus! {

proof fn lemma_runs_among(
    map: Seq<(Seq<char>, JsonView)>,
    now: int,
    started_at: int,
    n: int,
    run: DueRun,
)
    requires
        0 <= n <= built_ins().len(),
    ensures
        runs_among(map, now, started_at, n).contains(run) <==> exists|i: int|
            0 <= i < n && #[trigger] built_ins()[i] == run.source && run_at(
                plan_of(map, run.source.spec_id()),
                now,
                started_at,
            ) == Some(run.catchup),
    decreases n,
{
    if n > 0 {
        lemma_runs_among(map, now, started_at, n - 1, run);
        let before = runs_among(map, now, started_at, n - 1);
        let all = runs_among(map, now, started_at, n);
        let source = built_ins()[n - 1];
        let at = run_at(plan_of(map, source.spec_id()), now, started_at);
        if all.contains(run) {
            let k = choose|k: int| 0 <= k < all.len() && all[k] == run;
            if k < before.len() {
                assert(before[k] == run);
                let i = choose|i: int|
                    0 <= i < n - 1 && #[trigger] built_ins()[i] == run.source && run_at(
                        plan_of(map, run.source.spec_id()),
                        now,
                        started_at,
                    ) == Some(run.catchup);
                assert(built_ins()[i] == run.source);
            } else {
                assert(built_ins()[n - 1] == run.source);
            }
        }
        if exists|i: int|
            0 <= i < n && #[trigger] built_ins()[i] == run.source && run_at(
                plan_of(map, run.source.spec_id()),
                now,
                started_at,
            ) == Some(run.catchup) {
            let i = choose|i: int|
                0 <= i < n && #[trigger] built_ins()[i] == run.source && run_at(
                    plan_of(map, run.source.spec_id()),
                    now,
                    started_at,
                ) == Some(run.catchup);
            if i < n - 1 {
                assert(before.contains(run));
                let k = choose|k: int| 0 <= k < before.len() && before[k] == run;
                assert(all[k] == run);
            } else {
                assert(all[before.len() as int] == run);
            }
        }
    }
}

/// A tick runs every built-in source that is due, and no other.
pub proof fn lemma_tick_runs_what_is_due(
    map: Seq<(Seq<char>, JsonView)>,
    now: int,
    started_at: int,
    s: BuiltIn,
    catchup: bool,
)
    ensures
        runs_among(map, now, started_at, built_ins().len() as int).contains(
            DueRun { source: s, catchup },
        ) <==> run_at(plan_of(map, s.spec_id()), now, started_at) == Some(catchup),
{
    let n = built_ins().len() as int;
    let run = DueRun { source: s, catchup };
    lemma_runs_among(map, now, started_at, n, run);
    lemma_registered(s);
    let i = choose|i: int| 0 <= i < built_ins().len() && built_ins()[i] == s;
    assert(built_ins()[i] == run.source);
}

/// Which sources a tick runs, told from their settings: a source runs where it
/// is enabled and its interval has passed since the last attempt. A run is a
/// catch-up where there was no attempt, or two intervals have passed; it then
/// waits for thirty seconds after the start.
pub proof fn lemma_tick_by_settings(
    map: Seq<(Seq<char>, JsonView)>,
    own: Seq<(Seq<char>, JsonView)>,
    s: BuiltIn,
    enabled: bool,
    interval: int,
    last: int,
    now: int,
    started_at: int,
)
    requires
        holds(map, s.spec_id(), JsonView::Object(own)),
        holds(own, "update-enabled"@, JsonView::Bool(enabled)),
        holds(own, "update-interval"@, JsonView::Int(interval)),
        holds(own, "last-updated-at"@, JsonView::Int(last)),
        300 <= interval <= 604800,
        i64::MIN <= last <= i64::MAX,
    ensures
        ({
            let runs = runs_among(map, now, started_at, built_ins().len() as int);
            let due = enabled && now >= last + interval;
            let late = last == 0 || now >= last + 2 * interval;
            &&& runs.contains(DueRun { source: s, catchup: false }) <==> due && !late
            &&& runs.contains(DueRun { source: s, catchup: true }) <==> due && late && now
                >= started_at + 30
        }),
{
    lemma_held(map, s.spec_id(), JsonView::Object(own));
    lemma_held(own, "update-enabled"@, JsonView::Bool(enabled));
    lemma_held(own, "update-interval"@, JsonView::Int(interval));
    lemma_held(own, "last-updated-at"@, JsonView::Int(last));
    lemma_tick_runs_what_is_due(map, now, started_at, s, false);
    lemma_tick_runs_what_is_due(map, now, started_at, s, true);
}

/// A source without settings, or whose switch is missing or off, never runs; one
/// that is enabled and has nothing else set runs once an hour has passed since
/// the epoch, as a catch-up.
pub proof fn lemma_tick_defaults(
    map: Seq<(Seq<char>, JsonView)>,
    own: Seq<(Seq<char>, JsonView)>,
    s: BuiltIn,
    catchup: bool,
    now: int,
    started_at: int,
)
    ensures
        ({
            let runs = runs_among(map, now, started_at, built_ins().len() as int);
            let run = DueRun { source: s, catchup };
            &&& lacks(map, s.spec_id()) ==> !runs.contains(run)
            &&& holds(map, s.spec_id(), JsonView::Object(own)) && (lacks(own, "update-enabled"@)
                || holds(own, "update-enabled"@, JsonView::Bool(false))) ==> !runs.contains(run)
            &&& holds(map, s.spec_id(), JsonView::Object(own)) && holds(
                own,
                "update-enabled"@,
                JsonView::Bool(true),
            ) && lacks(own, "update-interval"@) && lacks(own, "last-updated-at"@) ==> (
            runs.contains(run) <==> catchup && now >= 3600 && now >= started_at + 30)
        }),
{
    lemma_tick_runs_what_is_due(map, now, started_at, s, catchup);
    let empty = Seq::<(Seq<char>, JsonView)>::empty();
    lemma_lacking(empty, "update-enabled"@);
    if lacks(map, s.spec_id()) {
        lemma_lacking(map, s.spec_id());
    }
    if holds(map, s.spec_id(), JsonView::Object(own)) {
        lemma_held(map, s.spec_id(), JsonView::Object(own));
        if lacks(own, "update-enabled"@) {
            lemma_lacking(own, "update-enabled"@);
        }
        if holds(own, "update-enabled"@, JsonView::Bool(false)) {
            lemma_held(own, "update-enabled"@, JsonView::Bool(false));
        }
        if holds(own, "update-enabled"@, JsonView::Bool(true)) {
            lemma_held(own, "update-enabled"@, JsonView::Bool(true));
        }
        if lacks(own, "update-interval"@) {
            lemma_lacking(own, "update-interval"@);
        }
        if lacks(own, "last-updated-at"@) {
            lemma_lacking(own, "last-updated-at"@);
        }
    }
}

/// A tick starts each source at most once.
pub proof fn lemma_tick_runs_once(
    map: Seq<(Seq<char>, JsonView)>,
    now: int,
    started_at: int,
    i: int,
    j: int,
)
    requires
        0 <= i < j < runs_among(map, now, started_at, built_ins().len() as int).len(),
    ensures
        ({
            let runs = runs_among(map, now, started_at, built_ins().len() as int);
            runs[i].source != runs[j].source
        }),
{
    lemma_runs_apart(map, now, started_at, built_ins().len() as int, i, j);
}

proof fn lemma_runs_apart(
    map: Seq<(Seq<char>, JsonView)>,
    now: int,
    started_at: int,
    n: int,
    i: int,
    j: int,
)
    requires
        0 <= n <= built_ins().len(),
        0 <= i < j < runs_among(map, now, started_at, n).len(),
    ensures
        ({
            let runs = runs_among(map, now, started_at, n);
            runs[i].source != runs[j].source
        }),
    decreases n,
{
    let before = runs_among(map, now, started_at, n - 1);
    if j < before.len() {
        lemma_runs_apart(map, now, started_at, n - 1, i, j);
    } else {
        lemma_runs_among(map, now, started_at, n - 1, before[i]);
        assert(before.contains(before[i]));
        let k = choose|k: int|
            0 <= k < n - 1 && #[trigger] built_ins()[k] == before[i].source && run_at(
                plan_of(map, before[i].source.spec_id()),
                now,
                started_at,
            ) == Some(before[i].catchup);
        lemma_built_ins_apart(k, n - 1);
    }
}

proof fn lemma_built_ins_apart(i: int, j: int)
    requires
        0 <= i < j < built_ins().len(),
    ensures
        built_ins()[i] != built_ins()[j],
{
}

/// A window was missed by exactly the enabled sources that were updated before,
/// and whose interval is over.
pub proof fn lemma_missed_by_settings(
    map: Seq<(Seq<char>, JsonView)>,
    own: Seq<(Seq<char>, JsonView)>,
    s: BuiltIn,
    enabled: bool,
    interval: int,
    last: int,
    now: int,
)
    requires
        holds(map, s.spec_id(), JsonView::Object(own)),
        holds(own, "update-enabled"@, JsonView::Bool(enabled)),
        holds(own, "update-interval"@, JsonView::Int(interval)),
        holds(own, "last-updated-at"@, JsonView::Int(last)),
        300 <= interval <= 604800,
        i64::MIN <= last <= i64::MAX,
    ensures
        missed_among(map, now, built_ins().len() as int).contains(s) <==> enabled && last > 0 && now
            > last + interval,
{
    lemma_held(map, s.spec_id(), JsonView::Object(own));
    lemma_held(own, "update-enabled"@, JsonView::Bool(enabled));
    lemma_held(own, "update-interval"@, JsonView::Int(interval));
    lemma_held(own, "last-updated-at"@, JsonView::Int(last));
    lemma_missed(map, now, built_ins().len() as int, s);
    lemma_registered(s);
    let i = choose|i: int| 0 <= i < built_ins().len() && built_ins()[i] == s;
    assert(built_ins()[i] == s);
}

proof fn lemma_missed(map: Seq<(Seq<char>, JsonView)>, now: int, n: int, s: BuiltIn)
    requires
        0 <= n <= built_ins().len(),
    ensures
        missed_among(map, now, n).contains(s) <==> (exists|i: int|
            0 <= i < n && #[trigger] built_ins()[i] == s) && crate::schedule::is_missed(
            plan_of(map, s.spec_id()),
            now,
        ),
    decreases n,
{
    if n > 0 {
        lemma_missed(map, now, n - 1, s);
        let before = missed_among(map, now, n - 1);
        let all = missed_among(map, now, n);
        if all.contains(s) {
            let k = choose|k: int| 0 <= k < all.len() && all[k] == s;
            if k < before.len() {
                assert(before[k] == s);
            } else {
                assert(built_ins()[n - 1] == s);
            }
        }
        if (exists|i: int| 0 <= i < n && #[trigger] built_ins()[i] == s)
            && crate::schedule::is_missed(plan_of(map, s.spec_id()), now) {
            let i = choose|i: int| 0 <= i < n && #[trigger] built_ins()[i] == s;
            if i < n - 1 {
                assert(before.contains(s));
                let k = choose|k: int| 0 <= k < before.len() && before[k] == s;
                assert(all[k] == s);
            } else {
                assert(all[before.len() as int] == s);
            }
        }
    }
}

/// A source keeps as many images as its settings say: the number under
/// `max-images`, a hundred where there is none, and all where it is not above 0.
pub proof fn lemma_cap_is_what_is_set(settings: &SourceSettings, n: i64)
    ensures
        holds(settings.0@, "max-images"@, JsonView::Int(n as int)) && n > 0 ==> cap_in(settings)
            == n,
        holds(settings.0@, "max-images"@, JsonView::Int(n as int)) && n <= 0 ==> cap_in(settings)
            == 0,
        lacks(settings.0@, "max-images"@) ==> cap_in(settings) == 100,
{
    lemma_settings_read(
        settings,
        "max-images"@,
        n,
        false,
        Seq::empty(),
        crate::config::DEFAULT_MAX_IMAGES,
        false,
        Seq::empty(),
    );
}

/// After a trim to the cap in the settings, a source lists no more images than
/// the number set there, and these are the newest. `names` are the files that
/// the trim names.
pub proof fn lemma_trimmed_to_what_is_set(
    settings: &SourceSettings,
    n: i64,
    dir: Seq<char>,
    files: Seq<FileView>,
    names: Seq<Seq<char>>,
)
    requires
        holds(settings.0@, "max-images"@, JsonView::Int(n as int)),
        n > 0,
        separate(dir, files),
        cap_in(settings) < listing(dir, files).len(),
        names.len() == listing(dir, files).len() - cap_in(settings),
        forall|i: int|
            0 <= i < names.len() ==> free_of(#[trigger] names[i], '/') && joined(dir, names[i])
                == listing(dir, files)[cap_in(settings) + i].path,
    ensures
        listing(dir, after_deletes(files, names)).len() == n,
        listing(dir, after_deletes(files, names)) == listing(dir, files).take(n as int),
{
    lemma_cap_is_what_is_set(settings, n);
    lemma_trim_keeps_newest(dir, files, cap_in(settings), names);
}

/// Whatever a source had, once it is trimmed to the cap in its settings it lists
/// at most as many images as the number set there; and where it had no more, all
/// of them.
pub proof fn lemma_at_most_what_is_set(
    settings: &SourceSettings,
    n: i64,
    dir: Seq<char>,
    files: Seq<FileView>,
    names: Seq<Seq<char>>,
)
    requires
        holds(settings.0@, "max-images"@, JsonView::Int(n as int)),
        n > 0,
        separate(dir, files),
        names.len() == (if listing(dir, files).len() > cap_in(settings) {
            listing(dir, files).len() - cap_in(settings)
        } else {
            0
        }),
        forall|i: int|
            0 <= i < names.len() ==> free_of(#[trigger] names[i], '/') && joined(dir, names[i])
                == listing(dir, files)[cap_in(settings) + i].path,
    ensures
        listing(dir, after_deletes(files, names)).len() <= n,
        listing(dir, files).len() <= n ==> listing(dir, after_deletes(files, names)) == listing(
            dir,
            files,
        ),
{
    lemma_cap_is_what_is_set(settings, n);
    if listing(dir, files).len() > cap_in(settings) {
        lemma_trimmed_to_what_is_set(settings, n, dir, files, names);
    }
}

/// An update fetches today and as many days before it as `index` says, up to
/// seven: it takes one more step than that.
pub proof fn lemma_backfill_is_what_is_set(settings: &SourceSettings, i: i64)
    ensures
        holds(settings.0@, "index"@, JsonView::Int(i as int)) && 0 <= i <= 7
            ==> crate::schedule::backfill_in(settings) == i,
        holds(settings.0@, "index"@, JsonView::Int(i as int)) && i < 0
            ==> crate::schedule::backfill_in(settings) == 0,
        holds(settings.0@, "index"@, JsonView::Int(i as int)) && i > 7
            ==> crate::schedule::backfill_in(settings) == 7,
        lacks(settings.0@, "index"@) ==> crate::schedule::backfill_in(settings) == 0,
{
    lemma_settings_read(settings, "index"@, i, false, Seq::empty(), 0, false, Seq::empty());
}

/// Each step of an update goes one day further back: the step after `done` days
/// is about the day `done` days before today. A day is fetched unless the update
/// is cancelled, or the source publishes by the day and the day is stored.
pub proof fn lemma_update_goes_back_by_days(run: UpdateRun, cancelled: bool, stored: bool)
    requires
        run.wf(),
    ensures
        run.done == run.total ==> run.step_spec(cancelled, stored) == UpdateStep::Finished,
        run.done < run.total && cancelled ==> run.step_spec(cancelled, stored)
            == UpdateStep::Cancelled,
        run.step_spec(cancelled, stored) matches UpdateStep::Fetch { index, day } ==> {
            &&& index == run.done
            &&& valid(day)
            &&& day_number(day) == day_number(run.today) - run.done
            &&& !cancelled && !(stored && run.source.is_daily())
        },
        run.done < run.total && !cancelled && run.today.year > -262143 && !(stored
            && run.source.is_daily()) ==> run.step_spec(cancelled, stored) is Fetch,
        run.step_spec(cancelled, stored) == UpdateStep::Skipped ==> run.source.is_daily() && stored,
{
    let k = day_number(run.today) - run.done;
    if exists|d: Date| valid(d) && #[trigger] day_number(d) == k {
        let d = choose|d: Date| valid(d) && #[trigger] day_number(d) == k;
    }
    if run.done < run.total && run.today.year > -262143 {
        lemma_day_exists(run.today, run.done as int);
    }
}

/// The days before a day exist, up to the beginning of the calendar.
proof fn lemma_day_exists(d: Date, n: int)
    requires
        valid(d),
        d.year > -262143,
        0 <= n <= 8,
    ensures
        exists|e: Date| valid(e) && #[trigger] day_number(e) == day_number(d) - n,
    decreases n,
{
    if n == 0 {
        assert(day_number(d) == day_number(d) - n);
    } else {
        let e = lemma_day_before(d);
        if n == 1 {
            assert(day_number(e) == day_number(d) - n);
        } else if e.year > -262143 {
            lemma_day_exists(e, n - 1);
            let f = choose|f: Date| valid(f) && #[trigger] day_number(f) == day_number(e) - (n - 1);
            assert(day_number(f) == day_number(d) - n);
        } else {
            let f = Date { year: e.year, month: 12, day: (31 - (n - 1)) as u32 };
            assert(d.month == 1 && d.day == 1 && e.month == 12 && e.day == 31);
            assert(day_number(f) == day_number(d) - n);
        }
    }
}

/// The day before a day: the day before in the month, else the last of the month
/// before, else the last of December.
pub proof fn lemma_day_before(d: Date) -> (e: Date)
    requires
        valid(d),
        d.year > -262143,
    ensures
        valid(e),
        day_number(e) == day_number(d) - 1,
        e.year < d.year ==> d.month == 1 && d.day == 1 && e.month == 12 && e.day == 31 && e.year
            == d.year - 1,
{
    if d.day > 1 {
        Date { year: d.year, month: d.month, day: (d.day - 1) as u32 }
    } else if d.month > 1 {
        let m = (d.month - 1) as u32;
        Date {
            year: d.year,
            month: m,
            day: crate::date::days_in_month(d.year as int, m as int) as u32,
        }
    } else {
        reveal_with_fuel(crate::date::days_before_month, 14);
        Date { year: (d.year - 1) as i32, month: 12, day: 31 }
    }
}

} // verus!
