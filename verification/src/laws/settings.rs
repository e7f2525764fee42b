//! The configuration: what is read of a document, told from its members.

use vstd::prelude::*;

use crate::config::{
    all_settings, clamped, flag_under, interval_of, mode_of, settings_of, text_or, text_under,
    with_setting,
};
use crate::daemon::{pick_after, pick_for, Pick};
use crate::json::{lookup, JsonView};
use crate::laws::documents::{holds, lacks, lemma_held, lemma_lacking};
use crate::schedule::{plan_of, Plan};

verus! {

/// A text of the configuration is read as it stands; one that is missing is
/// empty, or its default.
pub proof fn lemma_texts_read(
    m: Seq<(Seq<char>, JsonView)>,
    key: Seq<char>,
    s: Seq<char>,
    default: Seq<char>,
)
    ensures
        holds(m, key, JsonView::Str(s)) ==> text_under(m, key) == s,
        holds(m, key, JsonView::Str(s)) && s.len() > 0 ==> text_or(m, key, default) == s,
        holds(m, key, JsonView::Str(s)) && s.len() == 0 ==> text_or(m, key, default) == default,
        lacks(m, key) ==> text_under(m, key).len() == 0 && text_or(m, key, default) == default,
{
    if holds(m, key, JsonView::Str(s)) {
        lemma_held(m, key, JsonView::Str(s));
    }
    if lacks(m, key) {
        lemma_lacking(m, key);
    }
}

/// A switch is on where it is set so, and off where it is missing.
pub proof fn lemma_flags_read(m: Seq<(Seq<char>, JsonView)>, key: Seq<char>, b: bool)
    ensures
        holds(m, key, JsonView::Bool(b)) ==> flag_under(m, key) == b,
        lacks(m, key) ==> !flag_under(m, key),
{
    if holds(m, key, JsonView::Bool(b)) {
        lemma_held(m, key, JsonView::Bool(b));
    }
    if lacks(m, key) {
        lemma_lacking(m, key);
    }
}

/// The document has settings of its own for a source.
pub open spec fn has_settings(
    m: Seq<(Seq<char>, JsonView)>,
    all: Seq<(Seq<char>, JsonView)>,
    source: Seq<char>,
    own: Seq<(Seq<char>, JsonView)>,
) -> bool {
    holds(m, "source-settings"@, JsonView::Object(all)) && holds(all, source, JsonView::Object(own))
}

/// The settings of a source stand under `source-settings` and its id.
pub proof fn lemma_settings_found(
    m: Seq<(Seq<char>, JsonView)>,
    all: Seq<(Seq<char>, JsonView)>,
    source: Seq<char>,
    own: Seq<(Seq<char>, JsonView)>,
)
    ensures
        has_settings(m, all, source, own) ==> settings_of(m, source) == own && all_settings(m)
            == all,
        lacks(m, "source-settings"@) ==> settings_of(m, source).len() == 0,
        holds(m, "source-settings"@, JsonView::Object(all)) && lacks(all, source) ==> settings_of(
            m,
            source,
        ).len() == 0,
{
    if holds(m, "source-settings"@, JsonView::Object(all)) {
        lemma_held(m, "source-settings"@, JsonView::Object(all));
        if holds(all, source, JsonView::Object(own)) {
            lemma_held(all, source, JsonView::Object(own));
        }
        if lacks(all, source) {
            lemma_lacking(all, source);
        }
    }
    if lacks(m, "source-settings"@) {
        lemma_lacking(m, "source-settings"@);
        lemma_lacking(Seq::empty(), source);
    }
}

/// A time between updates is kept where it is from five minutes to a week, and
/// is else the nearer of these; the one of a source that has none is an hour.
pub proof fn lemma_interval_read(
    m: Seq<(Seq<char>, JsonView)>,
    all: Seq<(Seq<char>, JsonView)>,
    source: Seq<char>,
    own: Seq<(Seq<char>, JsonView)>,
    secs: i64,
)
    ensures
        300 <= secs <= 604800 ==> clamped(secs) == secs,
        secs < 300 ==> clamped(secs) == 300,
        secs > 604800 ==> clamped(secs) == 604800,
        has_settings(m, all, source, own) && holds(
            own,
            "update-interval"@,
            JsonView::Int(secs as int),
        ) && 300 <= secs <= 604800 ==> interval_of(m, source) == secs,
        has_settings(m, all, source, own) && lacks(own, "update-interval"@) ==> interval_of(
            m,
            source,
        ) == 3600,
        lacks(m, "source-settings"@) ==> interval_of(m, source) == 3600,
{
    lemma_settings_found(m, all, source, own);
    if holds(own, "update-interval"@, JsonView::Int(secs as int)) {
        lemma_held(own, "update-interval"@, JsonView::Int(secs as int));
    }
    if lacks(own, "update-interval"@) {
        lemma_lacking(own, "update-interval"@);
    }
    if lacks(m, "source-settings"@) {
        assert(lacks(settings_of(m, source), "update-interval"@));
        lemma_lacking(settings_of(m, source), "update-interval"@);
    }
}

/// The mode of a source is its own, else the one for all, else the latest image.
pub proof fn lemma_mode_read(
    m: Seq<(Seq<char>, JsonView)>,
    all: Seq<(Seq<char>, JsonView)>,
    source: Seq<char>,
    own: Seq<(Seq<char>, JsonView)>,
    mode: Seq<char>,
    general: Seq<char>,
)
    requires
        has_settings(m, all, source, own),
    ensures
        holds(own, "mode"@, JsonView::Str(mode)) && mode.len() > 0 ==> mode_of(m, source) == mode,
        lacks(own, "mode"@) && holds(m, "wallpaper-mode"@, JsonView::Str(general)) && general.len()
            > 0 ==> mode_of(m, source) == general,
        lacks(own, "mode"@) && lacks(m, "wallpaper-mode"@) ==> mode_of(m, source) == "latest"@,
{
    lemma_settings_found(m, all, source, own);
    reveal_strlit("");
    if holds(own, "mode"@, JsonView::Str(mode)) {
        lemma_held(own, "mode"@, JsonView::Str(mode));
    }
    if lacks(own, "mode"@) {
        lemma_lacking(own, "mode"@);
    }
    lemma_texts_read(m, "wallpaper-mode"@, general, "latest"@);
}

/// What the scheduler reads of a source's settings is what stands there.
pub proof fn lemma_plan_read(
    map: Seq<(Seq<char>, JsonView)>,
    own: Seq<(Seq<char>, JsonView)>,
    source: Seq<char>,
    enabled: bool,
    interval: i64,
    last: i64,
)
    requires
        holds(map, source, JsonView::Object(own)),
        holds(own, "update-enabled"@, JsonView::Bool(enabled)),
        holds(own, "update-interval"@, JsonView::Int(interval as int)),
        holds(own, "last-updated-at"@, JsonView::Int(last as int)),
        300 <= interval <= 604800,
    ensures
        plan_of(map, source) == (Plan { enabled, interval, last }),
{
    lemma_held(map, source, JsonView::Object(own));
    lemma_held(own, "update-enabled"@, JsonView::Bool(enabled));
    lemma_held(own, "update-interval"@, JsonView::Int(interval as int));
    lemma_held(own, "last-updated-at"@, JsonView::Int(last as int));
}

/// The mode decides what becomes the wallpaper: nothing new where the user picks,
/// a random image, or the latest.
pub proof fn lemma_picks(mode: Seq<char>)
    ensures
        pick_for("manual"@) == Pick::Keep,
        pick_for("random"@) == Pick::Random,
        pick_for("latest"@) == Pick::Latest,
        mode != "manual"@ && mode != "random"@ ==> pick_for(mode) == Pick::Latest,
{
    reveal_strlit("manual");
    reveal_strlit("random");
    reveal_strlit("latest");
    assert("manual"@[0] != "random"@[0]);
    assert("latest"@[0] != "random"@[0]);
    assert("latest"@[0] != "manual"@[0]);
}

/// An update changes the wallpaper only where its source is the one in use, and
/// then as the source's mode says.
pub proof fn lemma_pick_after_update(
    m: Seq<(Seq<char>, JsonView)>,
    all: Seq<(Seq<char>, JsonView)>,
    own: Seq<(Seq<char>, JsonView)>,
    used: Seq<char>,
    updated: Seq<char>,
    mode: Seq<char>,
)
    requires
        holds(m, "wallpaper-source"@, JsonView::Str(used)),
    ensures
        used != updated ==> pick_after(m, updated) == Pick::Keep,
        used == updated && has_settings(m, all, updated, own) && holds(
            own,
            "mode"@,
            JsonView::Str(mode),
        ) && mode == "random"@ ==> pick_after(m, updated) == Pick::Random,
        used == updated && has_settings(m, all, updated, own) && holds(
            own,
            "mode"@,
            JsonView::Str(mode),
        ) && mode == "latest"@ ==> pick_after(m, updated) == Pick::Latest,
        used == updated && has_settings(m, all, updated, own) && holds(
            own,
            "mode"@,
            JsonView::Str(mode),
        ) && mode == "manual"@ ==> pick_after(m, updated) == Pick::Keep,
{
    lemma_texts_read(m, "wallpaper-source"@, used, Seq::empty());
    reveal_strlit("manual");
    reveal_strlit("random");
    reveal_strlit("latest");
    lemma_picks(mode);
    if has_settings(m, all, updated, own) {
        lemma_mode_read(m, all, updated, own, mode, Seq::empty());
    }
}

/// Setting one key of one source leaves every other key, and the keys of every
/// other source, as they were, and the key has the new value; also where the
/// source has had no settings.
pub proof fn lemma_setting_is_local(
    m: Seq<(Seq<char>, JsonView)>,
    source: Seq<char>,
    key: Seq<char>,
    value: JsonView,
    other_source: Seq<char>,
    other_key: Seq<char>,
)
    requires
        lookup(all_settings(m), source) is Some ==> lookup(all_settings(m), source)->0 is Object,
    ensures
        ({
            let n = with_setting(m, source, key, value);
            &&& lookup(settings_of(n, source), key) == Some(value)
            &&& other_key != key ==> lookup(settings_of(n, source), other_key) == lookup(
                settings_of(m, source),
                other_key,
            )
            &&& other_source != source ==> lookup(settings_of(n, other_source), other_key)
                == lookup(settings_of(m, other_source), other_key)
        }),
{
    crate::config::lemma_setting_reads_back(m, source, key, value, other_source, other_key);
}

} // verus!
