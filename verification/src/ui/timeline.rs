//! The timeline: the plan of every source, and the log of what ran.

use vstd::prelude::*;

use crate::text::{concat, decimal, decimal_int, decimal_of, decimal_of_int, same};

verus! {

/// The sign of a line of the timeline.
#[derive(Clone, Copy, Debug, PartialEq, Eq, Structural)]
pub enum Icon {
    /// It succeeded.
    Check,
    /// It is planned, waits or runs.
    Clock,
    /// It failed.
    Cross,
    /// It was missed, or is switched off.
    Dash,
}

pub open spec fn icon_of(kind: Seq<char>, done: bool, ok: bool) -> Icon {
    if kind == "skipped"@ {
        Icon::Dash
    } else if !done {
        Icon::Clock
    } else if ok {
        Icon::Check
    } else {
        Icon::Cross
    }
}

impl Icon {
    /// The sign of a log entry.
    pub fn of_entry(kind: &str, done: bool, ok: bool) -> (r: Icon)
        ensures
            r == icon_of(kind@, done, ok),
    {
        if same(kind, "skipped") {
            Icon::Dash
        } else if !done {
            Icon::Clock
        } else if ok {
            Icon::Check
        } else {
            Icon::Cross
        }
    }

    /// The sign of a source in the plan.
    pub fn of_plan(enabled: bool) -> (r: Icon)
        ensures
            r == (if enabled {
                Icon::Clock
            } else {
                Icon::Dash
            }),
    {
        if enabled {
            Icon::Clock
        } else {
            Icon::Dash
        }
    }

    /// The icon; the dash is drawn.
    pub fn name(self) -> (r: &'static str)
        ensures
            r@ == (match self {
                Icon::Check => "object-select-symbolic"@,
                Icon::Clock => "preferences-system-time-symbolic"@,
                Icon::Cross => "window-close-symbolic"@,
                Icon::Dash => ""@,
            }),
    {
        match self {
            Icon::Check => "object-select-symbolic",
            Icon::Clock => "preferences-system-time-symbolic",
            Icon::Cross => "window-close-symbolic",
            Icon::Dash => "",
        }
    }

    /// The style of the icon.
    pub fn css(self) -> (r: &'static str)
        ensures
            r@ == (match self {
                Icon::Check => "success"@,
                Icon::Clock => "tl-blue"@,
                Icon::Cross => "error"@,
                Icon::Dash => "tl-gray"@,
            }),
    {
        match self {
            Icon::Check => "success",
            Icon::Clock => "tl-blue",
            Icon::Cross => "error",
            Icon::Dash => "tl-gray",
        }
    }
}

/// An interval in its largest whole unit: its number and the message that
/// names the unit, to be translated.
pub open spec fn interval_parts(secs: i64) -> (int, Seq<char>) {
    if secs < 60 {
        (secs as int, "sec"@)
    } else if secs < 3600 {
        (secs as int / 60, "min"@)
    } else if secs < 86400 {
        (secs as int / 3600, "h"@)
    } else {
        (secs as int / 86400, "d"@)
    }
}

/// An interval in its largest whole unit: its number and the message that
/// names the unit.
pub fn split_interval(secs: i64) -> (r: (i64, &'static str))
    ensures
        (r.0 as int, r.1@) == interval_parts(secs),
{
    if secs < 60 {
        (secs, "sec")
    } else if secs < 3600 {
        (secs / 60, "min")
    } else if secs < 86400 {
        (secs / 3600, "h")
    } else {
        (secs / 86400, "d")
    }
}

/// An interval with its translated unit: `5min`.
pub fn fmt_interval(secs: i64, unit: &str) -> (r: String)
    ensures
        r@ == decimal_int(interval_parts(secs).0) + unit@,
{
    let (n, _) = split_interval(secs);
    concat(decimal_of_int(n).as_str(), unit)
}

/// The message that names a kind of task, to be translated.
pub fn kind_message(kind: &str) -> (r: &'static str)
    ensures
        r@ == (if kind@ == "scheduled"@ {
            "Scheduled"@
        } else if kind@ == "apply"@ {
            "Apply"@
        } else {
            "Manual"@
        }),
{
    if same(kind, "scheduled") {
        "Scheduled"
    } else if same(kind, "apply") {
        "Apply"
    } else {
        "Manual"
    }
}

/// The title of a log entry: its label, the translated mark of a catch-up run
/// and the number of retries.
pub open spec fn entry_title(
    label: Seq<char>,
    kind: Seq<char>,
    catchup: bool,
    retries: i32,
    mark: Seq<char>,
) -> Seq<char> {
    let marked = if catchup && kind != "skipped"@ {
        label + " "@ + mark
    } else {
        label
    };
    if retries > 0 && kind != "skipped"@ {
        marked + " ("@ + decimal_int(retries as int) + ")"@
    } else {
        marked
    }
}

/// The title of a log entry.
pub fn title_of_entry(label: &str, kind: &str, catchup: bool, retries: i32, mark: &str) -> (r:
    String)
    ensures
        r@ == entry_title(label@, kind@, catchup, retries, mark@),
{
    let skipped = same(kind, "skipped");
    let mut title = label.to_owned();
    if catchup && !skipped {
        title.append(" ");
        title.append(mark);
    }
    if retries > 0 && !skipped {
        title.append(" (");
        title.append(decimal_of_int(retries as i64).as_str());
        title.append(")");
    }
    title
}

/// The second line of a log entry: when it started, what it is, how far it
/// has come, and whether it succeeded.
pub open spec fn entry_meta(
    started: Seq<char>,
    kind: Seq<char>,
    done: bool,
    ok: bool,
    step: i32,
    total: i32,
    success: Seq<char>,
) -> Seq<char> {
    let base = started + " \u{b7} "@ + kind;
    let stepped = if !done && total > 0 {
        base + " \u{b7} "@ + decimal_int(step as int) + "/"@ + decimal_int(total as int)
    } else {
        base
    };
    if done && ok {
        stepped + success
    } else {
        stepped
    }
}

/// The second line of a log entry. `started` is its local time, `kind` the
/// translated kind and `success` the translated mark of success.
pub fn meta_of_entry(
    started: &str,
    kind: &str,
    done: bool,
    ok: bool,
    step: i32,
    total: i32,
    success: &str,
) -> (r: String)
    ensures
        r@ == entry_meta(started@, kind@, done, ok, step, total, success@),
{
    let mut s = concat(started, " \u{b7} ");
    s.append(kind);
    if !done && total > 0 {
        s.append(" \u{b7} ");
        s.append(decimal_of_int(step as i64).as_str());
        s.append("/");
        s.append(decimal_of_int(total as i64).as_str());
    }
    if done && ok {
        s.append(success);
    }
    s
}

/// The label in the task list: a running task with steps shows how many are
/// done.
pub open spec fn list_label(label: Seq<char>, running: bool, done: i32, total: i32) -> Seq<char> {
    if running && total > 0 {
        label + " ("@ + decimal_int(done as int) + "/"@ + decimal_int(total as int) + ")"@
    } else {
        label
    }
}

/// The label in the task list.
pub fn task_label(label: &str, running: bool, done: i32, total: i32) -> (r: String)
    ensures
        r@ == list_label(label@, running, done, total),
{
    let mut s = label.to_owned();
    if running && total > 0 {
        s.append(" (");
        s.append(decimal_of_int(done as i64).as_str());
        s.append("/");
        s.append(decimal_of_int(total as i64).as_str());
        s.append(")");
    }
    s
}

/// A number with a translated noun: `12 images`.
pub fn counted(n: usize, noun: &str) -> (r: String)
    ensures
        r@ == decimal(n as nat) + " "@ + noun@,
{
    let mut s = concat(decimal_of(n as u64).as_str(), " ");
    s.append(noun);
    s
}

/// The position in a carousel: `1 / 12`.
pub fn position_text(page: usize, total: usize) -> (r: String)
    requires
        page < usize::MAX,
    ensures
        r@ == decimal((page + 1) as nat) + " / "@ + decimal(total as nat),
{
    let mut s = concat(decimal_of((page + 1) as u64).as_str(), " / ");
    s.append(decimal_of(total as u64).as_str());
    s
}

} // verus!
