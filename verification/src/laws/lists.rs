//! XFCE's lists, the steps of autostart, and the daemon's entries.

use vstd::prelude::*;

use crate::autostart::{autostart_steps, deploy_steps, Host, Step, Unit};
use crate::daemon::{is_entry_for, is_missed_entry, is_past_entry, is_waiting_entry};
use crate::history::HistoryEntry;
use crate::source::{built_ins, BuiltIn, Source};
use crate::storage::MetaView;
use crate::tasklog::TaskLogEntry;
use crate::text::{ends_with, opt_text};
use crate::ui::wallpaper::from_slot;
use crate::xfce::{
    display_of, displays_of, is_last_image, last_image_keys, monitor_of, monitor_property,
    monitors_of, with_monitors,
};

verus! {

/// The monitors of a list are those that its lines name, and only those, in the
/// order of the lines.
pub proof fn lemma_monitors_listed(lines: Seq<Seq<char>>, line: Seq<char>, name: Seq<char>)
    ensures
        monitor_of(line) == Some(name) ==> monitors_of(lines.push(line)) == monitors_of(lines).push(
            name,
        ),
        monitor_of(line) is None ==> monitors_of(lines.push(line)) == monitors_of(lines),
        monitors_of(Seq::empty()).len() == 0,
{
    assert(lines.push(line).drop_last() =~= lines);
}

/// The displays of keys are named once each: exactly those that some key names.
pub proof fn lemma_displays_listed(keys: Seq<Seq<char>>, name: Seq<char>)
    ensures
        displays_of(keys).no_duplicates(),
        displays_of(keys).contains(name) <==> name.len() > 0 && exists|i: int|
            0 <= i < keys.len() && display_of(#[trigger] keys[i]) == name,
    decreases keys.len(),
{
    if keys.len() > 0 {
        let rest = keys.drop_last();
        let last = display_of(keys.last());
        let before = displays_of(rest);
        let all = displays_of(keys);
        lemma_displays_listed(rest, name);
        lemma_displays_listed(rest, last);
        if all.contains(name) {
            let k = choose|k: int| 0 <= k < all.len() && all[k] == name;
            if k < before.len() {
                assert(before[k] == name);
                let i = choose|i: int| 0 <= i < rest.len() && display_of(#[trigger] rest[i]) == name;
                assert(display_of(keys[i]) == name);
            } else {
                assert(display_of(keys[keys.len() - 1]) == name);
            }
        }
        if name.len() > 0 && exists|i: int|
            0 <= i < keys.len() && display_of(#[trigger] keys[i]) == name {
            let i = choose|i: int| 0 <= i < keys.len() && display_of(#[trigger] keys[i]) == name;
            if i < rest.len() {
                assert(display_of(rest[i]) == name);
                assert(before.contains(name));
                let k = choose|k: int| 0 <= k < before.len() && before[k] == name;
                assert(all[k] == name);
            } else if before.contains(name) {
                assert(all == before);
            } else {
                assert(all[before.len() as int] == name);
            }
        }
    }
}

/// The properties that are set are the listed ones and those of the monitors,
/// and no other.
pub proof fn lemma_targets_only(listed: Seq<Seq<char>>, names: Seq<Seq<char>>, p: Seq<char>)
    requires
        with_monitors(listed, names).contains(p),
    ensures
        listed.contains(p) || exists|i: int|
            0 <= i < names.len() && monitor_property(#[trigger] names[i]) == p,
    decreases names.len(),
{
    if names.len() > 0 {
        let rest = names.drop_last();
        let before = with_monitors(listed, rest);
        if before.contains(p) {
            lemma_targets_only(listed, rest, p);
            if !listed.contains(p) {
                let i = choose|i: int|
                    0 <= i < rest.len() && monitor_property(#[trigger] rest[i]) == p;
                assert(monitor_property(names[i]) == p);
            }
        } else {
            let all = with_monitors(listed, names);
            let k = choose|k: int| 0 <= k < all.len() && all[k] == p;
            if k < before.len() {
                assert(before[k] == p);
            }
            assert(monitor_property(names[names.len() - 1]) == p);
        }
    }
}

/// Of a channel's keys those of wallpapers are taken, each and no other.
pub proof fn lemma_wallpaper_keys(keys: Seq<Seq<char>>, key: Seq<char>)
    ensures
        last_image_keys(keys).contains(key) <==> keys.contains(key) && ends_with(
            key,
            "/last-image"@,
        ),
    decreases keys.len(),
{
    reveal(Seq::filter);
    let pick = |k: Seq<char>| is_last_image(k);
    assert(last_image_keys(keys) == keys.filter(pick));
    if keys.len() > 0 {
        let rest = keys.drop_last();
        lemma_wallpaper_keys(rest, key);
        let before = last_image_keys(rest);
        let all = last_image_keys(keys);
        assert(all == (if is_last_image(keys.last()) {
            before.push(keys.last())
        } else {
            before
        }));
        if all.contains(key) {
            let k = choose|k: int| 0 <= k < all.len() && all[k] == key;
            if k < before.len() {
                assert(before[k] == key);
                let i = choose|i: int| 0 <= i < rest.len() && rest[i] == key;
                assert(keys[i] == key);
            } else {
                assert(keys[keys.len() - 1] == key);
            }
        }
        if keys.contains(key) && is_last_image(key) {
            let i = choose|i: int| 0 <= i < keys.len() && keys[i] == key;
            if i < rest.len() {
                assert(rest[i] == key);
                let k = choose|k: int| 0 <= k < before.len() && before[k] == key;
                assert(all[k] == key);
            } else {
                assert(all[before.len() as int] == key);
            }
        }
    }
}

/// The autostart entry is written where it is switched on, and removed where it
/// is switched off and there; else nothing is done.
pub proof fn lemma_autostart_switch(host: Host)
    ensures
        autostart_steps(host, true) == seq![Step::WriteAutostart],
        host.autostart ==> autostart_steps(host, false) == seq![Step::RemoveAutostart],
        !host.autostart ==> autostart_steps(host, false).len() == 0,
{
}

/// A unit is deployed once the old one is stopped, disabled and, where it is
/// installed, removed; systemd then reads its units again.
pub proof fn lemma_deployment(host: Host)
    ensures
        host.legacy.installed ==> deploy_steps(host) == seq![
            Step::Stop(Unit::Legacy),
            Step::Disable(Unit::Legacy),
            Step::RemoveUnit(Unit::Legacy),
            Step::WriteUnit,
            Step::Reload,
        ],
        !host.legacy.installed ==> deploy_steps(host) == seq![
            Step::Stop(Unit::Legacy),
            Step::Disable(Unit::Legacy),
            Step::WriteUnit,
            Step::Reload,
        ],
{
    if host.legacy.installed {
        assert(deploy_steps(host) =~= seq![
            Step::Stop(Unit::Legacy),
            Step::Disable(Unit::Legacy),
            Step::RemoveUnit(Unit::Legacy),
            Step::WriteUnit,
            Step::Reload,
        ]);
    } else {
        assert(deploy_steps(host) =~= seq![
            Step::Stop(Unit::Legacy),
            Step::Disable(Unit::Legacy),
            Step::WriteUnit,
            Step::Reload,
        ]);
    }
}

/// A task that waits is logged with its id, its time, its label, its kind and its
/// source, as neither ended nor gone well.
pub proof fn lemma_waiting_entry(
    e: TaskLogEntry,
    id: u64,
    now: i64,
    label: Seq<char>,
    kind: Seq<char>,
    source: Seq<char>,
    catchup: bool,
)
    requires
        is_waiting_entry(e, id, now, label, kind, source, catchup),
    ensures
        e.id == id && e.start_ts == now && e.end_ts == 0,
        e.label@ == label && e.kind@ == kind && e.source@ == source && e.catchup == catchup,
        !e.success && e.error@.len() == 0,
        e.done == 0 && e.total == 0 && e.retries == 0,
{
}

/// What is logged as past has ended when it began, with its outcome.
pub proof fn lemma_past_entry(
    e: TaskLogEntry,
    id: u64,
    now: i64,
    label: Seq<char>,
    kind: Seq<char>,
    source: Seq<char>,
    catchup: bool,
    success: bool,
    error: Seq<char>,
)
    requires
        is_past_entry(e, id, now, label, kind, source, catchup, success, error),
    ensures
        e.id == id && e.start_ts == now && e.end_ts == now,
        e.label@ == label && e.kind@ == kind && e.source@ == source && e.catchup == catchup,
        e.success == success && e.error@ == error,
{
}

/// A missed window is logged as skipped, for its source, and as no success.
pub proof fn lemma_missed_entry(
    e: TaskLogEntry,
    source: BuiltIn,
    id: u64,
    label: Seq<char>,
    now: i64,
)
    requires
        is_missed_entry(e, source, id, label, now),
    ensures
        e.id == id && e.start_ts == now && e.end_ts == now,
        e.kind@ == "skipped"@ && e.source@ == source.spec_id() && e.catchup && !e.success,
        e.label@ == label + " \u{b7} "@ + source.spec_id(),
        e.error@.len() == 0,
{
}

/// A wallpaper that is applied is recorded with its file, the source, the title
/// and the credit of its description, and the time.
pub proof fn lemma_applied_entry(e: HistoryEntry, path: Seq<char>, meta: MetaView, now: i64)
    requires
        is_entry_for(e, path, Some(meta), now),
    ensures
        e.file@ == path,
        e.source@ == meta.source,
        e.title@ == meta.title,
        opt_text(e.copyright) == meta.copyright,
        e.applied_at == now,
{
}

/// A step starts from the slot of the source in use; without a known one from
/// that of the page that is shown.
pub proof fn lemma_from_slots(i: int, j: int)
    requires
        0 <= i < 7,
        0 <= j < 7,
    ensures
        from_slot(built_ins()[i].spec_id(), Some(built_ins()[j].spec_id())) == i + 1,
        from_slot("other"@, Some(built_ins()[j].spec_id())) == j + 1,
        from_slot("other"@, None) == 1,
        from_slot(Seq::empty(), None) == 0,
{
    crate::laws::views::lemma_slots(i);
    crate::laws::views::lemma_slots(j);
    crate::laws::views::lemma_no_slot();
}

} // verus!
