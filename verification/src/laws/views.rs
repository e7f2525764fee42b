//! What the windows show and do.

use vstd::prelude::*;

use crate::autostart::{Host, Step, Unit};
use crate::config::{all_settings, settings_of, with_setting};
use crate::json::{lemma_set_member, lookup, JsonView};
use crate::source::{built_ins, lemma_ids_distinct, text_at, BuiltIn, Source};
use crate::storage::MetaView;
use crate::text::decimal;
use crate::ui::captions::{grid_caption, page_caption, title_for, viewer_caption};
use crate::ui::layout::{columns_in, is_near, origin_monitor, primary, tile_in, Geometry};
use crate::ui::preferences::{
    bounded, choice_index, first_choice, hosted, hosting_modes, languages, spawn_commands,
    switch_steps, SwitchStep,
};
use crate::ui::setup::{enabled_among, finished, with_choices, SourceChoice};
use crate::ui::timeline::{entry_meta, entry_title, icon_of, interval_parts, list_label, Icon};
use crate::ui::wallpaper::{
    back_position, mode_after, shown_slot, slot_of, source_index, source_of_click, start_page,
    switched, SwitchTo,
};

verus! {

/// As many columns as fit are shown, each at least 220 wide beside a margin of
/// 24 in all; never fewer than two nor more than six.
pub proof fn lemma_columns_fit(width: int)
    ensures
        2 <= columns_in(width) <= 6,
        columns_in(width) > 2 ==> columns_in(width) * 220 + 24 <= width,
        columns_in(width) < 6 ==> (columns_in(width) + 1) * 220 + 24 > width,
{
}

/// Tiles are at least 220 wide; wider ones fill the row, with gaps of six, to
/// less than one point per tile.
pub proof fn lemma_tiles_fill(width: int)
    ensures
        tile_in(width) >= 220,
        tile_in(width) > 220 ==> columns_in(width) * tile_in(width) + columns_in(width) * 6 + 24
            <= width,
        columns_in(width) * (tile_in(width) + 1) + columns_in(width) * 6 + 24 > width,
{
    let c = columns_in(width);
    let t = tile_in(width);
    lemma_columns_fit(width);
    let w = if width < 1 {
        1
    } else {
        width
    };
    let room = w - 24 - c * 6;
    if room >= 0 {
        let each = room / c;
        assert(each * c <= room < (each + 1) * c) by (nonlinear_arith)
            requires
                each == room / c,
                c > 0,
        ;
        assert(c * (each + 1) == (each + 1) * c) by (nonlinear_arith);
        assert(c * each == each * c) by (nonlinear_arith);
        if each < 220 {
            assert(c * 221 >= c * (each + 1)) by (nonlinear_arith)
                requires
                    each < 220,
                    c > 0,
            ;
        }
    } else {
        assert(c * 221 >= 0) by (nonlinear_arith)
            requires
                c > 0,
        ;
    }
}

/// The pages near the active one are those at most `keep` away.
pub proof fn lemma_near_pages(active: int, keep: int, i: int)
    requires
        keep >= 0,
    ensures
        is_near(active, active, keep),
        is_near(active + keep, active, keep),
        is_near(active - keep, active, keep),
        !is_near(active + keep + 1, active, keep),
        !is_near(active - keep - 1, active, keep),
        is_near(i, active, keep) == is_near(active, i, keep),
{
}

/// The primary monitor is the first that holds the origin; else the first of all.
pub proof fn lemma_primary_monitor(all: Seq<Geometry>, k: int)
    requires
        0 <= k <= all.len(),
        forall|i: int|
            0 <= i < k ==> !((#[trigger] all[i]).x <= 0 && 0 < all[i].x + all[i].width && all[i].y
                <= 0 && 0 < all[i].y + all[i].height),
    ensures
        k < all.len() && all[k].x <= 0 && 0 < all[k].x + all[k].width && all[k].y <= 0 && 0
            < all[k].y + all[k].height ==> primary(all) == Some(k),
        k == all.len() && k > 0 ==> primary(all) == Some(0int),
        all.len() == 0 ==> primary(all) is None,
{
    lemma_origin_from(all, 0, k);
}

proof fn lemma_origin_from(all: Seq<Geometry>, from: int, k: int)
    requires
        0 <= from <= k <= all.len(),
        forall|i: int|
            from <= i < k ==> !((#[trigger] all[i]).x <= 0 && 0 < all[i].x + all[i].width
                && all[i].y <= 0 && 0 < all[i].y + all[i].height),
    ensures
        k < all.len() && all[k].x <= 0 && 0 < all[k].x + all[k].width && all[k].y <= 0 && 0
            < all[k].y + all[k].height ==> origin_monitor(all, from) == k,
        k == all.len() ==> origin_monitor(all, from) == all.len(),
    decreases k - from,
{
    if from < k {
        assert(all[from] == all[from]);
        lemma_origin_from(all, from + 1, k);
    }
}

/// An image is titled by its description; a caption is its text, else its credit.
pub proof fn lemma_captions(
    file: Seq<char>,
    m: MetaView,
    untitled: Seq<char>,
    text: Seq<char>,
    credit: Seq<char>,
)
    ensures
        m.title.len() > 0 ==> title_for(file, Some(m), untitled) == m.title,
        text_at(m.extra, "description"@) == Some(text) && text.len() > 0 ==> viewer_caption(Some(m))
            == text && grid_caption(Some(m)) == text,
        text_at(m.extra, "description"@) is None && text_at(m.extra, "summary"@) == Some(text)
            && text.len() > 0 ==> viewer_caption(Some(m)) == text && grid_caption(Some(m)) == text,
        text_at(m.extra, "description"@) is None && text_at(m.extra, "summary"@) is None
            && m.copyright == Some(credit) ==> viewer_caption(Some(m)) == credit && grid_caption(
            Some(m),
        ) == credit && page_caption(Some(m)) == credit,
        text_at(m.extra, "description"@) == Some(text) && text.len() > 0 && m.copyright == Some(
            credit,
        ) && credit.len() > 0 ==> page_caption(Some(m)) == text + seq!['\n'] + credit,
        text_at(m.extra, "description"@) == Some(text) && text.len() > 0 && m.copyright is None
            ==> page_caption(Some(m)) == text,
        viewer_caption(None).len() == 0 && grid_caption(None).len() == 0 && page_caption(None).len()
            == 0,
{
    reveal_strlit("\n");
    assert("\n"@ =~= seq!['\n']);
}

/// The languages to choose from; the first follows the system.
pub proof fn lemma_languages()
    ensures
        languages().len() == 8,
        languages()[0] == "auto"@,
        languages().contains("en"@),
        languages().contains("zh_CN"@),
        languages().contains("ja"@),
        languages().contains("ru"@),
        languages().contains("bo"@),
        languages().contains("yue"@),
        languages().contains("lzh"@),
{
    assert(languages()[1] == "en"@);
    assert(languages()[2] == "zh_CN"@);
    assert(languages()[3] == "yue"@);
    assert(languages()[4] == "lzh"@);
    assert(languages()[5] == "ja"@);
    assert(languages()[6] == "ru"@);
    assert(languages()[7] == "bo"@);
}

/// A choice is selected by the place of its value; an unknown value selects the
/// first.
pub proof fn lemma_choice_selected(values: Seq<Seq<char>>, value: Seq<char>, k: int)
    requires
        0 <= k <= values.len(),
        forall|i: int| 0 <= i < k ==> #[trigger] values[i] != value,
    ensures
        k < values.len() && values[k] == value ==> choice_index(values, value, 0) == k,
        k == values.len() ==> choice_index(values, value, 0) == 0,
{
    lemma_choice_from(values, value, 0, k);
}

proof fn lemma_choice_from(values: Seq<Seq<char>>, value: Seq<char>, from: int, k: int)
    requires
        0 <= from <= k <= values.len(),
        forall|i: int| from <= i < k ==> #[trigger] values[i] != value,
    ensures
        k < values.len() && values[k] == value ==> choice_index(values, value, from) == k,
        k == values.len() ==> choice_index(values, value, from) == 0,
    decreases k - from,
{
    if from < k {
        assert(values[from] != value);
        lemma_choice_from(values, value, from + 1, k);
    }
}

/// The same of choices that have a label.
pub proof fn lemma_labelled_choice_selected(
    choices: Seq<(Seq<char>, Seq<char>)>,
    value: Seq<char>,
    k: int,
)
    requires
        0 <= k <= choices.len(),
        forall|i: int| 0 <= i < k ==> (#[trigger] choices[i]).0 != value,
    ensures
        k < choices.len() && choices[k].0 == value ==> first_choice(choices, value, 0) == k,
        k == choices.len() ==> first_choice(choices, value, 0) == 0,
{
    lemma_labelled_from(choices, value, 0, k);
}

proof fn lemma_labelled_from(
    choices: Seq<(Seq<char>, Seq<char>)>,
    value: Seq<char>,
    from: int,
    k: int,
)
    requires
        0 <= from <= k <= choices.len(),
        forall|i: int| from <= i < k ==> (#[trigger] choices[i]).0 != value,
    ensures
        k < choices.len() && choices[k].0 == value ==> first_choice(choices, value, from) == k,
        k == choices.len() ==> first_choice(choices, value, from) == 0,
    decreases k - from,
{
    if from < k {
        assert(choices[from].0 != value);
        lemma_labelled_from(choices, value, from + 1, k);
    }
}

/// A number is kept within its bounds, and else is the nearer bound.
pub proof fn lemma_bounded(n: i64, min: i64, max: i64)
    requires
        min <= max,
    ensures
        min <= n <= max ==> bounded(n, min, max) == n,
        n < min ==> bounded(n, min, max) == min,
        n > max ==> bounded(n, min, max) == max,
{
}

/// The daemon can be hosted by its supervisor, and by systemd where that runs.
pub proof fn lemma_hosting(h: Host)
    ensures
        hosting_modes(true) == seq!["supervisor"@, "systemd"@],
        hosting_modes(false) == seq!["supervisor"@],
        hosted(h) <==> h.current.installed || h.legacy.installed || h.current.active
            || h.legacy.active,
{
}

/// To leave systemd, its unit is stopped and disabled before the supervisor is
/// started; to move to it, what runs is ended first and the unit started last.
/// Without systemd a move to it is refused.
pub proof fn lemma_switch_of_hosting(host: Host, mode: Seq<char>)
    ensures
        mode != "systemd"@ ==> switch_steps(host, mode) == seq![
            SwitchStep::Take(Step::Stop(Unit::Current)),
            SwitchStep::Take(Step::Disable(Unit::Current)),
            SwitchStep::Wait,
            SwitchStep::SpawnSupervisor,
        ],
        mode == "systemd"@ && !host.systemd ==> switch_steps(host, mode).last()
            == SwitchStep::Unavailable && !switch_steps(host, mode).contains(
            SwitchStep::SpawnSupervisor,
        ),
        mode == "systemd"@ && host.systemd ==> {
            let steps = switch_steps(host, mode);
            &&& steps.len() >= 4
            &&& steps[0] == SwitchStep::KillStandalone
            &&& steps[1] == SwitchStep::Wait
            &&& steps[steps.len() - 2] == SwitchStep::Take(Step::Enable(Unit::Current))
            &&& steps.last() == SwitchStep::Take(Step::Start(Unit::Current))
        },
{
    if mode != "systemd"@ {
        assert(switch_steps(host, mode) =~= seq![
            SwitchStep::Take(Step::Stop(Unit::Current)),
            SwitchStep::Take(Step::Disable(Unit::Current)),
            SwitchStep::Wait,
            SwitchStep::SpawnSupervisor,
        ]);
    }
}

/// How a program of the bundle is started: in a Flatpak from its own directory,
/// or through the runner from outside; in an AppImage from its directory first;
/// else from the search path.
pub proof fn lemma_spawned_programs(
    bin: Seq<char>,
    app: Seq<char>,
    dir: Seq<char>,
    any: Option<Seq<char>>,
)
    requires
        app.len() > 0,
        bin.len() > 0,
        bin[0] != '/',
        dir.len() > 0,
        dir.last() != '/',
    ensures
        spawn_commands(bin, Some(app), true, any) == seq![seq!["/app/bin"@ + seq!['/'] + bin]],
        spawn_commands(bin, Some(app), false, any) == seq![
            seq!["flatpak"@, "run"@, "--command="@ + bin, app],
        ],
        spawn_commands(bin, None, false, Some(dir)) == seq![
            seq![dir + seq!['/'] + "usr/bin"@ + seq!['/'] + bin],
            seq![bin],
        ],
        spawn_commands(bin, None, false, None) == seq![seq![bin]],
{
    reveal_strlit("/app/bin");
    reveal_strlit("usr/bin");
}

/// The mark of a task: a dash where it was skipped, a clock while it runs, and
/// then whether it went well.
pub proof fn lemma_icons(kind: Seq<char>, done: bool, ok: bool)
    ensures
        icon_of("skipped"@, done, ok) == Icon::Dash,
        kind != "skipped"@ ==> icon_of(kind, false, ok) == Icon::Clock && icon_of(kind, true, true)
            == Icon::Check && icon_of(kind, true, false) == Icon::Cross,
{
}

/// A time is told in the largest unit that it fills.
pub proof fn lemma_interval_units(secs: i64)
    ensures
        secs < 60 ==> interval_parts(secs) == (secs as int, "sec"@),
        60 <= secs < 3600 ==> interval_parts(secs).1 == "min"@ && interval_parts(secs).0 * 60
            <= secs < interval_parts(secs).0 * 60 + 60,
        3600 <= secs < 86400 ==> interval_parts(secs).1 == "h"@ && interval_parts(secs).0 * 3600
            <= secs < interval_parts(secs).0 * 3600 + 3600,
        86400 <= secs ==> interval_parts(secs).1 == "d"@ && interval_parts(secs).0 * 86400 <= secs
            < interval_parts(secs).0 * 86400 + 86400,
{
}

/// A task's line tells its label, whether it was caught up, and its retries.
pub proof fn lemma_entry_titles(label: Seq<char>, kind: Seq<char>, retries: i32, mark: Seq<char>)
    requires
        kind != "skipped"@,
        retries > 0,
    ensures
        entry_title(label, kind, false, 0, mark) == label,
        entry_title(label, kind, true, 0, mark) == label + " "@ + mark,
        entry_title(label, kind, false, retries, mark) == label + " ("@ + decimal(retries as nat)
            + ")"@,
        entry_title(label, kind, true, retries, mark) == label + " "@ + mark + " ("@ + decimal(
            retries as nat,
        ) + ")"@,
        entry_title(label, "skipped"@, true, retries, mark) == label,
{
}

/// The line below tells the start, the kind, the progress while it runs, and the
/// success.
pub proof fn lemma_entry_lines(
    started: Seq<char>,
    kind: Seq<char>,
    ok: bool,
    step: i32,
    total: i32,
    success: Seq<char>,
)
    requires
        0 <= step,
        0 < total,
    ensures
        entry_meta(started, kind, false, ok, step, total, success) == started + " \u{b7} "@ + kind
            + " \u{b7} "@ + decimal(step as nat) + "/"@ + decimal(total as nat),
        entry_meta(started, kind, false, ok, step, 0, success) == started + " \u{b7} "@ + kind,
        entry_meta(started, kind, true, true, step, total, success) == started + " \u{b7} "@ + kind
            + success,
        entry_meta(started, kind, true, false, step, total, success) == started + " \u{b7} "@
            + kind,
{
}

/// A running task is listed with its progress; others by their label alone.
pub proof fn lemma_list_labels(label: Seq<char>, done: i32, total: i32)
    requires
        0 <= done,
        0 < total,
    ensures
        list_label(label, true, done, total) == label + " ("@ + decimal(done as nat) + "/"@
            + decimal(total as nat) + ")"@,
        list_label(label, false, done, total) == label,
        list_label(label, true, done, 0) == label,
{
}

/// The modes follow each other in a circle of three.
pub proof fn lemma_modes_go_round()
    ensures
        mode_after("latest"@) == "random"@,
        mode_after("random"@) == "manual"@,
        mode_after("manual"@) == "latest"@,
{
    reveal_strlit("latest");
    reveal_strlit("random");
    reveal_strlit("manual");
    assert("latest"@[0] != "random"@[0]);
    assert("manual"@[0] != "random"@[0]);
    assert("manual"@[0] != "latest"@[0]);
}

/// A click acts on the source in use; without one on the one that is shown,
/// where that has images.
pub proof fn lemma_click_source(configured: Seq<char>, shown: Seq<char>, has_images: bool)
    ensures
        configured.len() > 0 ==> source_of_click(configured, shown, has_images) == Some(configured),
        configured.len() == 0 && has_images && shown.len() > 0 ==> source_of_click(
            configured,
            shown,
            has_images,
        ) == Some(shown),
        configured.len() == 0 && (!has_images || shown.len() == 0) ==> source_of_click(
            configured,
            shown,
            has_images,
        ) is None,
{
}

/// The pages show the files from the last to the first, and start with the
/// current one; without it with the last page.
pub proof fn lemma_start_page(files: Seq<Seq<char>>, current: Seq<char>, k: int)
    requires
        0 <= k <= files.len(),
        forall|i: int| k <= i < files.len() ==> #[trigger] files[i] != current,
    ensures
        k > 0 && files[k - 1] == current ==> start_page(files, current) == files.len() - k,
        k == 0 && files.len() > 0 ==> start_page(files, current) == files.len() - 1,
        files.len() == 0 ==> start_page(files, current) == 0,
{
    lemma_back_from(files, current, 0, k);
}

proof fn lemma_back_from(files: Seq<Seq<char>>, current: Seq<char>, from: int, k: int)
    requires
        0 <= k <= files.len(),
        0 <= from <= files.len() - k,
        forall|i: int| k <= i < files.len() ==> #[trigger] files[i] != current,
    ensures
        k > 0 && files[k - 1] == current ==> back_position(files, current, from) == files.len() - k,
        k == 0 ==> back_position(files, current, from) == files.len(),
    decreases files.len() - k - from,
{
    if from < files.len() - k {
        assert(files[files.len() - 1 - from] != current);
        lemma_back_from(files, current, from + 1, k);
    }
}

proof fn lemma_source_from(i: int, from: int)
    requires
        0 <= from <= i < built_ins().len(),
    ensures
        source_index(built_ins()[i].spec_id(), from) == i,
    decreases i - from,
{
    if from < i {
        if built_ins()[from].spec_id() == built_ins()[i].spec_id() {
            lemma_ids_distinct(built_ins()[from], built_ins()[i]);
        }
        lemma_source_from(i, from + 1);
    }
}

/// The slots: the first stands for no source, the others for the sources in
/// their order.
pub proof fn lemma_slots(i: int)
    requires
        0 <= i < 7,
    ensures
        slot_of(Seq::empty()) == Some(0int),
        slot_of(built_ins()[i].spec_id()) == Some(i + 1),
        shown_slot(built_ins()[i].spec_id()) == i + 1,
        shown_slot(Seq::empty()) == 0,
{
    lemma_source_from(i, 0);
    reveal_strlit("bing");
    reveal_strlit("spotlight");
    reveal_strlit("nasa");
    reveal_strlit("wikimedia");
    reveal_strlit("earthview");
    reveal_strlit("picsum");
    reveal_strlit("europeana");
    assert(built_ins()[i].spec_id().len() > 0);
}

/// A name that no source has stands in no slot.
pub proof fn lemma_no_slot()
    ensures
        slot_of("other"@) is None,
        source_index("other"@, 0) == 7,
        shown_slot("other"@) == 1,
{
    reveal_strlit("bing");
    reveal_strlit("spotlight");
    reveal_strlit("nasa");
    reveal_strlit("wikimedia");
    reveal_strlit("earthview");
    reveal_strlit("picsum");
    reveal_strlit("europeana");
    reveal_strlit("other");
    assert("other"@.len() == 5);
    reveal_with_fuel(source_index, 8);
}

/// Switching goes to the next slot or the one before, and stops at the ends; back
/// from where a step led is where it began.
pub proof fn lemma_switching(slot: int)
    requires
        0 <= slot <= 7,
    ensures
        slot < 7 ==> switched(slot, true) == SwitchTo::Source(built_ins()[slot]),
        slot == 7 ==> switched(slot, true) == SwitchTo::Nowhere,
        slot == 0 ==> switched(slot, false) == SwitchTo::Nowhere,
        slot == 1 ==> switched(slot, false) == SwitchTo::NoSource,
        slot > 1 ==> switched(slot, false) == SwitchTo::Source(built_ins()[slot - 2]),
{
}

/// The choices of the setup end up in the settings of their sources, and no other
/// source is touched.
pub proof fn lemma_setup_choices(
    m: Seq<(Seq<char>, JsonView)>,
    choices: Seq<SourceChoice>,
    n: int,
    k: int,
    other: Seq<char>,
)
    requires
        0 <= n <= choices.len(),
        forall|s: BuiltIn|
            (#[trigger] lookup(all_settings(m), s.spec_id())) is Some ==> lookup(
                all_settings(m),
                s.spec_id(),
            )->0 is Object,
        forall|i: int, j: int|
            0 <= i < j < choices.len() ==> (#[trigger] choices[i]).source
                != (#[trigger] choices[j]).source,
    ensures
        ({
            let after = with_choices(m, choices, n);
            &&& 0 <= k < n ==> lookup(
                settings_of(after, choices[k].source.spec_id()),
                "update-enabled"@,
            ) == Some(JsonView::Bool(choices[k].enabled))
            &&& 0 <= k < n && 300 <= choices[k].interval <= 604800 ==> lookup(
                settings_of(after, choices[k].source.spec_id()),
                "update-interval"@,
            ) == Some(JsonView::Int(choices[k].interval as int))
            &&& (forall|i: int| 0 <= i < n ==> (#[trigger] choices[i]).source.spec_id() != other)
                ==> settings_of(after, other) == settings_of(m, other)
            &&& forall|s: BuiltIn|
                (#[trigger] lookup(all_settings(after), s.spec_id())) is Some ==> lookup(
                    all_settings(after),
                    s.spec_id(),
                )->0 is Object
        }),
    decreases n,
{
    if n > 0 {
        lemma_setup_choices(m, choices, n - 1, k, other);
        let before = with_choices(m, choices, n - 1);
        let c = choices[n - 1];
        let id = c.source.spec_id();
        let on = JsonView::Bool(c.enabled);
        let every = JsonView::Int(crate::config::clamped(c.interval) as int);
        let mid = with_setting(before, id, "update-enabled"@, on);
        let after = with_setting(mid, id, "update-interval"@, every);
        reveal_strlit("update-enabled");
        reveal_strlit("update-interval");
        reveal_strlit("source-settings");
        assert("update-enabled"@.len() != "update-interval"@.len());
        lemma_entries_stay_objects(before, id, "update-enabled"@, on);
        lemma_entries_stay_objects(mid, id, "update-interval"@, every);
        crate::config::lemma_setting_reads_back(
            before,
            id,
            "update-enabled"@,
            on,
            other,
            "update-interval"@,
        );
        crate::config::lemma_setting_reads_back(
            mid,
            id,
            "update-interval"@,
            every,
            other,
            "update-enabled"@,
        );
        if 0 <= k < n - 1 {
            let kid = choices[k].source.spec_id();
            if kid == id {
                lemma_ids_distinct(choices[k].source, c.source);
            }
            crate::config::lemma_setting_reads_back(
                before,
                id,
                "update-enabled"@,
                on,
                kid,
                "update-interval"@,
            );
            crate::config::lemma_setting_reads_back(
                mid,
                id,
                "update-interval"@,
                every,
                kid,
                "update-enabled"@,
            );
        }
    }
}

/// A setting that is put leaves every entry of a source an object.
proof fn lemma_entries_stay_objects(
    m: Seq<(Seq<char>, JsonView)>,
    id: Seq<char>,
    key: Seq<char>,
    value: JsonView,
)
    requires
        forall|s: BuiltIn|
            (#[trigger] lookup(all_settings(m), s.spec_id())) is Some ==> lookup(
                all_settings(m),
                s.spec_id(),
            )->0 is Object,
        exists|s: BuiltIn| #[trigger] s.spec_id() == id,
    ensures
        forall|s: BuiltIn|
            (#[trigger] lookup(all_settings(with_setting(m, id, key, value)), s.spec_id())) is Some
                ==> lookup(all_settings(with_setting(m, id, key, value)), s.spec_id())->0 is Object,
{
    let all = all_settings(m);
    let own = choose|s: BuiltIn| #[trigger] s.spec_id() == id;
    assert(lookup(all, own.spec_id()) is Some ==> lookup(all, own.spec_id())->0 is Object);
    let entry = crate::config::entry_with(lookup(all, id), key, value);
    let put = crate::json::with_member(all, id, entry);
    lemma_set_member(m, "source-settings"@, JsonView::Object(put), "source-settings"@);
    assert(all_settings(with_setting(m, id, key, value)) == put);
    assert forall|s: BuiltIn|
        (#[trigger] lookup(all_settings(with_setting(m, id, key, value)), s.spec_id())) is Some implies
        lookup(all_settings(with_setting(m, id, key, value)), s.spec_id())->0 is Object by {
        lemma_set_member(all, id, entry, id);
        lemma_set_member(all, id, entry, s.spec_id());
        assert(lookup(all, s.spec_id()) is Some ==> lookup(all, s.spec_id())->0 is Object);
    }
}

/// The sources that the setup enabled are those of its choices that are on, in
/// their order.
pub proof fn lemma_setup_enabled(choices: Seq<SourceChoice>, n: int, s: BuiltIn)
    requires
        0 <= n <= choices.len(),
    ensures
        enabled_among(choices, n).contains(s) <==> exists|i: int|
            0 <= i < n && (#[trigger] choices[i]).source == s && choices[i].enabled,
    decreases n,
{
    if n > 0 {
        lemma_setup_enabled(choices, n - 1, s);
        let before = enabled_among(choices, n - 1);
        let all = enabled_among(choices, n);
        if all.contains(s) {
            let k = choose|k: int| 0 <= k < all.len() && all[k] == s;
            if k < before.len() {
                assert(before[k] == s);
            } else {
                assert(choices[n - 1].source == s);
            }
        }
        if exists|i: int| 0 <= i < n && (#[trigger] choices[i]).source == s && choices[i].enabled {
            let i = choose|i: int|
                0 <= i < n && (#[trigger] choices[i]).source == s && choices[i].enabled;
            if i < n - 1 {
                assert(before.contains(s));
                let k = choose|k: int| 0 <= k < before.len() && before[k] == s;
                assert(all[k] == s);
            } else {
                assert(all[before.len() as int] == s);
            }
        }
    }
}

/// The end of the setup records its mode and its autostart, that it is done, and
/// that no source is in use; other keys stay.
pub proof fn lemma_setup_finished(
    m: Seq<(Seq<char>, JsonView)>,
    mode: Seq<char>,
    autostart: bool,
    other: Seq<char>,
)
    requires
        other != "run-mode"@ && other != "autostart"@ && other != "setup-done"@ && other
            != "wallpaper-source"@,
    ensures
        lookup(finished(m, mode, autostart), "run-mode"@) == Some(JsonView::Str(mode)),
        lookup(finished(m, mode, autostart), "autostart"@) == Some(JsonView::Bool(autostart)),
        lookup(finished(m, mode, autostart), "setup-done"@) == Some(JsonView::Bool(true)),
        lookup(finished(m, mode, autostart), "wallpaper-source"@) == Some(JsonView::Str(""@)),
        lookup(finished(m, mode, autostart), other) == lookup(m, other),
{
    reveal_strlit("run-mode");
    reveal_strlit("autostart");
    reveal_strlit("setup-done");
    reveal_strlit("wallpaper-source");
    assert("run-mode"@.len() == 8 && "autostart"@.len() == 9 && "setup-done"@.len() == 10
        && "wallpaper-source"@.len() == 16);
    let a = crate::json::with_member(m, "run-mode"@, JsonView::Str(mode));
    let b = crate::json::with_member(a, "autostart"@, JsonView::Bool(autostart));
    let c = crate::json::with_member(b, "setup-done"@, JsonView::Bool(true));
    let d = JsonView::Str(""@);
    lemma_set_member(m, "run-mode"@, JsonView::Str(mode), "run-mode"@);
    lemma_set_member(a, "autostart"@, JsonView::Bool(autostart), "run-mode"@);
    lemma_set_member(b, "setup-done"@, JsonView::Bool(true), "run-mode"@);
    lemma_set_member(c, "wallpaper-source"@, d, "run-mode"@);
    lemma_set_member(a, "autostart"@, JsonView::Bool(autostart), "autostart"@);
    lemma_set_member(b, "setup-done"@, JsonView::Bool(true), "autostart"@);
    lemma_set_member(c, "wallpaper-source"@, d, "autostart"@);
    lemma_set_member(b, "setup-done"@, JsonView::Bool(true), "setup-done"@);
    lemma_set_member(c, "wallpaper-source"@, d, "setup-done"@);
    lemma_set_member(c, "wallpaper-source"@, d, "wallpaper-source"@);
    lemma_set_member(m, "run-mode"@, JsonView::Str(mode), other);
    lemma_set_member(a, "autostart"@, JsonView::Bool(autostart), other);
    lemma_set_member(b, "setup-done"@, JsonView::Bool(true), other);
    lemma_set_member(c, "wallpaper-source"@, d, other);
}

} // verus!
