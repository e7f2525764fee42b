//! The configuration: a JSON object with global keys, and under
//! `source-settings` one object of settings for each source.

use vstd::prelude::*;

use crate::json::{
    agrees, bool_in, boolean, canonical, integral, json_in_text, lemma_agreed_equal,
    lemma_agreed_member, lemma_integral_canonical, lemma_member_plain, lemma_set_member,
    lemma_set_member_plain, lemma_set_member_well_formed, lemma_short_plain, lookup, max_depth,
    members_in, nests, opt_view, parse, plain, pretty, print, readable, short, stored, string,
    string_in, well_formed, with_member, Json, JsonMap, JsonView,
};
use crate::source::{or_bool, or_int, or_text, SourceSettings};

verus! {

/// Seconds between scheduled updates, where none is configured.
pub const DEFAULT_UPDATE_INTERVAL: i64 = 3600;

/// At most one update per 5 minutes.
pub const MIN_UPDATE_INTERVAL: i64 = 300;

/// At least one update per week.
pub const MAX_UPDATE_INTERVAL: i64 = 7 * 24 * 3600;

/// Images kept per source; 0 means all.
pub const DEFAULT_MAX_IMAGES: i64 = 100;

pub const BACKEND_AUTO: &'static str = "auto";

pub const BACKEND_GNOME: &'static str = "gnome";

pub const BACKEND_KDE: &'static str = "kde";

pub const BACKEND_XFCE: &'static str = "xfce";

/// The configuration document, and whether there is a file for it.
pub struct Config {
    map: JsonMap,
    present: bool,
}

impl View for Config {
    type V = Seq<(Seq<char>, JsonView)>;

    closed spec fn view(&self) -> Seq<(Seq<char>, JsonView)> {
        self.map@
    }
}

/// A string under a key; empty where there is none.
pub open spec fn text_under(m: Seq<(Seq<char>, JsonView)>, key: Seq<char>) -> Seq<char> {
    or_text(string_in(lookup(m, key)), Seq::empty())
}

/// A string under a key, or the default where it is empty.
pub open spec fn text_or(
    m: Seq<(Seq<char>, JsonView)>,
    key: Seq<char>,
    default: Seq<char>,
) -> Seq<char> {
    let s = text_under(m, key);
    if s.len() == 0 {
        default
    } else {
        s
    }
}

pub open spec fn flag_under(m: Seq<(Seq<char>, JsonView)>, key: Seq<char>) -> bool {
    or_bool(bool_in(lookup(m, key)), false)
}

/// The members of an object; none for any other value.
pub open spec fn members_or_none(v: Option<JsonView>) -> Seq<(Seq<char>, JsonView)> {
    match members_in(v) {
        Some(m) => m,
        None => Seq::empty(),
    }
}

/// The settings of all sources.
pub open spec fn all_settings(m: Seq<(Seq<char>, JsonView)>) -> Seq<(Seq<char>, JsonView)> {
    members_or_none(lookup(m, "source-settings"@))
}

/// The settings of one source.
pub open spec fn settings_of(m: Seq<(Seq<char>, JsonView)>, source: Seq<char>) -> Seq<
    (Seq<char>, JsonView),
> {
    members_or_none(lookup(all_settings(m), source))
}

/// What stands under a source, once a setting is set: an object with the
/// setting. Anything but an object is left alone.
pub open spec fn entry_with(
    entry: Option<JsonView>,
    key: Seq<char>,
    value: JsonView,
) -> JsonView {
    match entry {
        None => JsonView::Object(with_member(Seq::empty(), key, value)),
        Some(JsonView::Object(o)) => JsonView::Object(with_member(o, key, value)),
        Some(other) => other,
    }
}

/// The document with a setting of a source set.
pub open spec fn with_setting(
    m: Seq<(Seq<char>, JsonView)>,
    source: Seq<char>,
    key: Seq<char>,
    value: JsonView,
) -> Seq<(Seq<char>, JsonView)> {
    let all = all_settings(m);
    let entry = entry_with(lookup(all, source), key, value);
    with_member(m, "source-settings"@, JsonView::Object(with_member(all, source, entry)))
}

/// The document in a file; none where the text is no JSON document.
pub open spec fn document_in(raw: Seq<char>) -> Option<Seq<(Seq<char>, JsonView)>> {
    match json_in_text(raw) {
        Ok(v) => Some(members_or_none(Some(v))),
        Err(_) => None,
    }
}

/// The document is read back as it is, once it was written.
pub open spec fn rereads(m: Seq<(Seq<char>, JsonView)>) -> bool {
    let doc = JsonView::Object(m);
    well_formed(doc) && canonical(doc) && plain(doc, max_depth())
}

pub open spec fn clamped(secs: i64) -> i64 {
    if secs < MIN_UPDATE_INTERVAL {
        MIN_UPDATE_INTERVAL
    } else if secs > MAX_UPDATE_INTERVAL {
        MAX_UPDATE_INTERVAL
    } else {
        secs
    }
}

/// Keeps an interval within its bounds.
pub fn clamp_interval(secs: i64) -> (r: i64)
    ensures
        r == clamped(secs),
        MIN_UPDATE_INTERVAL <= r <= MAX_UPDATE_INTERVAL,
{
    if secs < MIN_UPDATE_INTERVAL {
        MIN_UPDATE_INTERVAL
    } else if secs > MAX_UPDATE_INTERVAL {
        MAX_UPDATE_INTERVAL
    } else {
        secs
    }
}

pub open spec fn mode_of(m: Seq<(Seq<char>, JsonView)>, source: Seq<char>) -> Seq<char> {
    let own = or_text(string_in(lookup(settings_of(m, source), "mode"@)), ""@);
    if own.len() == 0 {
        text_or(m, "wallpaper-mode"@, "latest"@)
    } else {
        own
    }
}

pub open spec fn interval_of(m: Seq<(Seq<char>, JsonView)>, source: Seq<char>) -> i64 {
    clamped(
        or_int(
            crate::json::int_in(lookup(settings_of(m, source), "update-interval"@)),
            DEFAULT_UPDATE_INTERVAL,
        ),
    )
}

/// What a file holds.
pub struct Loaded {
    pub config: Config,
    /// The file could not be read as JSON: it is to be moved out of the way.
    pub corrupt: bool,
}

impl Config {
    /// The document has its members in order, at every level.
    pub closed spec fn wf(&self) -> bool {
        well_formed(JsonView::Object(self.map@))
    }

    /// There is a file for the document.
    pub closed spec fn on_disk(&self) -> bool {
        self.present
    }

    /// An empty configuration without a file.
    pub fn new() -> (r: Config)
        ensures
            r@ == Seq::<(Seq<char>, JsonView)>::empty(),
            !r.on_disk(),
            r.wf(),
    {
        Config { map: JsonMap::new(), present: false }
    }

    /// The configuration in a file, given its text. A missing file is an empty
    /// configuration; so is a corrupt one, which counts as missing from then on.
    pub fn load(raw: Option<&str>) -> (r: Loaded)
        ensures
            r.config.wf(),
            match raw {
                None => r.config@.len() == 0 && !r.config.on_disk() && !r.corrupt,
                Some(text) => match document_in(text@) {
                    Some(m) => r.config@ == m && r.config.on_disk() && !r.corrupt,
                    None => r.config@.len() == 0 && !r.config.on_disk() && r.corrupt,
                },
            },
            short(JsonView::Object(r.config@)) ==> rereads(r.config@),
    {
        proof {
            assert(rereads(Seq::empty()));
            if raw is Some && json_in_text(raw->0@) is Ok {
                let v = json_in_text(raw->0@)->Ok_0;
                if nests(v, max_depth()) && short(v) {
                    lemma_short_plain(v, max_depth());
                }
            }
        }
        match raw {
            None => Loaded { config: Config::new(), corrupt: false },
            Some(text) => match parse(text) {
                Err(_) => Loaded { config: Config::new(), corrupt: true },
                Ok(Json::Object(map)) => {
                    assert(map@ =~= Json::Object(map)@->Object_0);
                    Loaded { config: Config { map, present: true }, corrupt: false }
                },
                Ok(_) => Loaded {
                    config: Config { map: JsonMap::new(), present: true },
                    corrupt: false,
                },
            },
        }
    }

    /// The text of the file. What was written is what [`Config::load`] reads,
    /// but for numbers that are no integers and have many digits, which may come
    /// back otherwise; they can be read, too, where they have no exponent. A
    /// document may nest up to 127 levels deep.
    pub fn to_text(&self) -> (r: String)
        ensures
            r@ == pretty(stored(JsonView::Object(self@))),
            rereads(self@) ==> document_in(r@) == Some(self@),
            readable(JsonView::Object(self@), max_depth()) ==> document_in(r@) is Some,
            self.wf() && document_in(r@) is Some ==> agrees(
                JsonView::Object(self@),
                JsonView::Object(document_in(r@)->0),
            ),
    {
        let doc = Json::Object(self.map.copy());
        assert(doc@->Object_0 =~= self@);
        print(&doc)
    }

    fn get_str(&self, key: &str) -> (r: String)
        ensures
            r@ == text_under(self@, key@),
    {
        match string(self.map.get(key)) {
            Some(s) => s,
            None => {
                let s = String::new();
                assert(s@ =~= Seq::<char>::empty());
                s
            },
        }
    }

    fn get_or(&self, key: &str, default: &str) -> (r: String)
        ensures
            r@ == text_or(self@, key@, default@),
    {
        let s = self.get_str(key);
        if s.as_str().is_empty() {
            default.to_owned()
        } else {
            s
        }
    }

    fn get_flag(&self, key: &str) -> (r: bool)
        ensures
            r == flag_under(self@, key@),
    {
        match boolean(self.map.get(key)) {
            Some(b) => b,
            None => false,
        }
    }

    fn set_value(&mut self, key: &str, value: Json)
        requires
            well_formed(value@),
        ensures
            final(self)@ == with_member(old(self)@, key@, value@),
            final(self).on_disk(),
            old(self).wf() ==> final(self).wf(),
    {
        proof {
            if self.wf() {
                lemma_set_member_well_formed(self.map@, key@, value@);
            }
        }
        self.map.insert(key, value);
        self.present = true;
    }

    fn set_str(&mut self, key: &str, value: &str)
        ensures
            final(self)@ == with_member(old(self)@, key@, JsonView::Str(value@)),
            final(self).on_disk(),
            old(self).wf() ==> final(self).wf(),
    {
        self.set_value(key, Json::Str(value.to_owned()));
    }

    fn set_flag(&mut self, key: &str, value: bool)
        ensures
            final(self)@ == with_member(old(self)@, key@, JsonView::Bool(value)),
            final(self).on_disk(),
            old(self).wf() ==> final(self).wf(),
    {
        self.set_value(key, Json::Bool(value));
    }

    /// The current wallpaper source; empty where none is selected.
    pub fn wallpaper_source(&self) -> (r: String)
        ensures
            r@ == text_under(self@, "wallpaper-source"@),
    {
        self.get_str("wallpaper-source")
    }

    pub fn set_wallpaper_source(&mut self, source: &str)
        ensures
            final(self)@ == with_member(old(self)@, "wallpaper-source"@, JsonView::Str(source@)),
            final(self).on_disk(),
            old(self).wf() ==> final(self).wf(),
    {
        self.set_str("wallpaper-source", source);
    }

    /// The user's own wallpaper, remembered before the first apply; empty
    /// where none is known.
    pub fn original_wallpaper(&self) -> (r: String)
        ensures
            r@ == text_under(self@, "original-wallpaper"@),
    {
        self.get_str("original-wallpaper")
    }

    pub fn set_original_wallpaper(&mut self, path: &str)
        ensures
            final(self)@ == with_member(old(self)@, "original-wallpaper"@, JsonView::Str(path@)),
            final(self).on_disk(),
            old(self).wf() ==> final(self).wf(),
    {
        self.set_str("original-wallpaper", path);
    }

    /// The global wallpaper mode, `latest` by default.
    pub fn wallpaper_mode(&self) -> (r: String)
        ensures
            r@ == text_or(self@, "wallpaper-mode"@, "latest"@),
    {
        self.get_or("wallpaper-mode", "latest")
    }

    pub fn set_wallpaper_mode(&mut self, mode: &str)
        ensures
            final(self)@ == with_member(old(self)@, "wallpaper-mode"@, JsonView::Str(mode@)),
            final(self).on_disk(),
            old(self).wf() ==> final(self).wf(),
    {
        self.set_str("wallpaper-mode", mode);
    }

    /// The mode of a source: its own, else the global one.
    pub fn source_mode(&self, source: &str) -> (r: String)
        ensures
            r@ == mode_of(self@, source@),
    {
        let m = self.settings_for(source).get_str("mode", "");
        if m.as_str().is_empty() {
            self.wallpaper_mode()
        } else {
            m
        }
    }

    pub fn set_source_mode(&mut self, source: &str, mode: &str)
        ensures
            final(self)@ == with_setting(old(self)@, source@, "mode"@, JsonView::Str(mode@)),
            final(self).on_disk(),
            old(self).wf() ==> final(self).wf(),
    {
        self.set_source_setting(source, "mode", Json::Str(mode.to_owned()));
    }

    /// Whether a source is updated on a schedule.
    pub fn update_enabled(&self, source: &str) -> (r: bool)
        ensures
            r == or_bool(bool_in(lookup(settings_of(self@, source@), "update-enabled"@)), false),
    {
        self.settings_for(source).get_bool("update-enabled", false)
    }

    pub fn set_update_enabled(&mut self, source: &str, enabled: bool)
        ensures
            final(self)@ == with_setting(old(self)@, source@, "update-enabled"@, JsonView::Bool(enabled)),
            final(self).on_disk(),
            old(self).wf() ==> final(self).wf(),
    {
        self.set_source_setting(source, "update-enabled", Json::Bool(enabled));
    }

    /// Seconds between the scheduled updates of a source.
    pub fn update_interval(&self, source: &str) -> (r: i64)
        ensures
            r == interval_of(self@, source@),
            MIN_UPDATE_INTERVAL <= r <= MAX_UPDATE_INTERVAL,
    {
        clamp_interval(
            self.settings_for(source).get_i64("update-interval", DEFAULT_UPDATE_INTERVAL),
        )
    }

    pub fn set_update_interval(&mut self, source: &str, secs: i64)
        ensures
            final(self)@ == with_setting(
                old(self)@,
                source@,
                "update-interval"@,
                JsonView::Int(clamped(secs) as int),
            ),
            final(self).on_disk(),
            old(self).wf() ==> final(self).wf(),
    {
        self.set_source_setting(source, "update-interval", Json::Int(clamp_interval(secs)));
    }

    /// Unix timestamp of the last update attempt of a source.
    pub fn last_updated_at(&self, source: &str) -> (r: i64)
        ensures
            r == or_int(
                crate::json::int_in(lookup(settings_of(self@, source@), "last-updated-at"@)),
                0,
            ),
    {
        self.settings_for(source).get_i64("last-updated-at", 0)
    }

    pub fn set_last_updated_at(&mut self, source: &str, ts: i64)
        ensures
            final(self)@ == with_setting(old(self)@, source@, "last-updated-at"@, JsonView::Int(ts as int)),
            final(self).on_disk(),
            old(self).wf() ==> final(self).wf(),
    {
        self.set_source_setting(source, "last-updated-at", Json::Int(ts));
    }

    /// The settings of all sources.
    pub fn source_settings_map(&self) -> (r: JsonMap)
        ensures
            r@ == all_settings(self@),
    {
        let found = self.map.get("source-settings");
        match found {
            Some(Json::Object(m)) => {
                assert(m@ =~= found->0@->Object_0);
                m.copy()
            },
            _ => JsonMap::new(),
        }
    }

    /// The configured settings of a source.
    pub fn settings_for(&self, source_id: &str) -> (r: SourceSettings)
        ensures
            r.0@ == settings_of(self@, source_id@),
    {
        let all = self.source_settings_map();
        let found = all.get(source_id);
        match found {
            Some(Json::Object(m)) => {
                assert(m@ =~= found->0@->Object_0);
                SourceSettings(m.copy())
            },
            _ => SourceSettings(JsonMap::new()),
        }
    }

    /// Sets one setting of a source.
    pub fn set_source_setting(&mut self, source_id: &str, key: &str, value: Json)
        requires
            well_formed(value@),
        ensures
            final(self)@ == with_setting(old(self)@, source_id@, key@, value@),
            final(self).on_disk(),
            old(self).wf() ==> final(self).wf(),
    {
        let mut all = self.source_settings_map();
        let ghost before = all@;
        let found = all.get(source_id);
        let ghost entry = opt_view(found);
        let ghost held = value@;
        let replacement = match found {
            None => {
                let mut m = JsonMap::new();
                m.insert(key, value);
                let j = Json::Object(m);
                assert(j@->Object_0 =~= m@);
                j
            },
            Some(Json::Object(o)) => {
                assert(o@ =~= found->0@->Object_0);
                let mut m = o.copy();
                m.insert(key, value);
                let j = Json::Object(m);
                assert(j@->Object_0 =~= m@);
                j
            },
            Some(other) => other.copy(),
        };
        assert(replacement@ == entry_with(entry, key@, held));
        let ghost put = replacement@;
        all.insert(source_id, replacement);
        let doc = Json::Object(all);
        assert(doc@->Object_0 =~= all@);
        proof {
            if self.wf() {
                lemma_setting_well_formed(self.map@, source_id@, key@, held);
            }
        }
        self.map.insert("source-settings", doc);
        self.present = true;
    }

    /// Whether the background service starts at login.
    pub fn autostart(&self) -> (r: bool)
        ensures
            r == flag_under(self@, "autostart"@),
    {
        self.get_flag("autostart")
    }

    pub fn set_autostart(&mut self, enabled: bool)
        ensures
            final(self)@ == with_member(old(self)@, "autostart"@, JsonView::Bool(enabled)),
            final(self).on_disk(),
            old(self).wf() ==> final(self).wf(),
    {
        self.set_flag("autostart", enabled);
    }

    /// How the background service runs: `supervisor` by default, or `systemd`.
    pub fn run_mode(&self) -> (r: String)
        ensures
            r@ == text_or(self@, "run-mode"@, "supervisor"@),
    {
        self.get_or("run-mode", "supervisor")
    }

    pub fn set_run_mode(&mut self, mode: &str)
        ensures
            final(self)@ == with_member(old(self)@, "run-mode"@, JsonView::Str(mode@)),
            final(self).on_disk(),
            old(self).wf() ==> final(self).wf(),
    {
        self.set_str("run-mode", mode);
    }

    /// The display language: `auto` by default, or a locale name.
    pub fn language(&self) -> (r: String)
        ensures
            r@ == text_or(self@, "language"@, "auto"@),
    {
        self.get_or("language", "auto")
    }

    pub fn set_language(&mut self, lang: &str)
        ensures
            final(self)@ == with_member(old(self)@, "language"@, JsonView::Str(lang@)),
            final(self).on_disk(),
            old(self).wf() ==> final(self).wf(),
    {
        self.set_str("language", lang);
    }

    /// Whether the first-run setup was completed.
    pub fn setup_done(&self) -> (r: bool)
        ensures
            r == flag_under(self@, "setup-done"@),
    {
        self.get_flag("setup-done")
    }

    pub fn set_setup_done(&mut self, done: bool)
        ensures
            final(self)@ == with_member(old(self)@, "setup-done"@, JsonView::Bool(done)),
            final(self).on_disk(),
            old(self).wf() ==> final(self).wf(),
    {
        self.set_flag("setup-done", done);
    }

    /// Whether this is a new installation: there is no file yet.
    pub fn is_first_run(&self) -> (r: bool)
        ensures
            r == !self.on_disk(),
    {
        !self.present
    }

    /// The wallpaper backend: `auto` by default, or a forced one.
    pub fn backend(&self) -> (r: String)
        ensures
            r@ == text_or(self@, "backend"@, "auto"@),
    {
        self.get_or("backend", "auto")
    }

    pub fn set_backend(&mut self, backend: &str)
        ensures
            final(self)@ == with_member(old(self)@, "backend"@, JsonView::Str(backend@)),
            final(self).on_disk(),
            old(self).wf() ==> final(self).wf(),
    {
        self.set_str("backend", backend);
    }

    /// Whether the viewer was fullscreen last time.
    pub fn viewer_fullscreen(&self) -> (r: bool)
        ensures
            r == flag_under(self@, "viewer-fullscreen"@),
    {
        self.get_flag("viewer-fullscreen")
    }

    pub fn set_viewer_fullscreen(&mut self, v: bool)
        ensures
            final(self)@ == with_member(old(self)@, "viewer-fullscreen"@, JsonView::Bool(v)),
            final(self).on_disk(),
            old(self).wf() ==> final(self).wf(),
    {
        self.set_flag("viewer-fullscreen", v);
    }

    /// Whether the viewer filled the screen last time.
    pub fn viewer_fill(&self) -> (r: bool)
        ensures
            r == flag_under(self@, "viewer-fill"@),
    {
        self.get_flag("viewer-fill")
    }

    pub fn set_viewer_fill(&mut self, v: bool)
        ensures
            final(self)@ == with_member(old(self)@, "viewer-fill"@, JsonView::Bool(v)),
            final(self).on_disk(),
            old(self).wf() ==> final(self).wf(),
    {
        self.set_flag("viewer-fill", v);
    }
}

impl Default for Config {
    fn default() -> (r: Config)
        ensures
            r@ == Seq::<(Seq<char>, JsonView)>::empty(),
            !r.on_disk(),
            r.wf(),
    {
        Config::new()
    }
}

proof fn lemma_member_well_formed(m: Seq<(Seq<char>, JsonView)>, key: Seq<char>)
    requires
        well_formed(JsonView::Object(m)),
    ensures
        lookup(m, key) is Some ==> well_formed(lookup(m, key)->0),
    decreases m.len(),
{
    if m.len() > 0 {
        assert(well_formed(m[0].1));
        let rest = m.skip(1);
        assert forall|i: int, j: int| 0 <= i < j < rest.len() implies crate::text::precedes(
            #[trigger] rest[i].0,
            #[trigger] rest[j].0,
        ) by {
            assert(crate::text::precedes(m[i + 1].0, m[j + 1].0));
        }
        assert forall|i: int| 0 <= i < rest.len() implies well_formed((#[trigger] rest[i]).1) by {
            assert(well_formed(m[i + 1].1));
        }
        assert(well_formed(JsonView::Object(rest)));
        lemma_member_well_formed(rest, key);
    }
}

/// Setting a setting keeps the document well-formed.
pub proof fn lemma_setting_well_formed(
    m: Seq<(Seq<char>, JsonView)>,
    source: Seq<char>,
    key: Seq<char>,
    value: JsonView,
)
    requires
        well_formed(JsonView::Object(m)),
        well_formed(value),
    ensures
        well_formed(JsonView::Object(with_setting(m, source, key, value))),
{
    let none = Seq::<(Seq<char>, JsonView)>::empty();
    assert(well_formed(JsonView::Object(none)));
    lemma_member_well_formed(m, "source-settings"@);
    let all = all_settings(m);
    assert(well_formed(JsonView::Object(all)));
    lemma_member_well_formed(all, source);
    let entry = entry_with(lookup(all, source), key, value);
    match lookup(all, source) {
        None => lemma_set_member_well_formed(none, key, value),
        Some(JsonView::Object(o)) => lemma_set_member_well_formed(o, key, value),
        Some(_) => {},
    }
    lemma_set_member_well_formed(all, source, entry);
    lemma_set_member_well_formed(
        m,
        "source-settings"@,
        JsonView::Object(with_member(all, source, entry)),
    );
}

/// A setting that was set is read back, and nothing else changes: neither the
/// other settings of the source, nor those of other sources, nor the global
/// keys. (What stands under a source and is no object is left alone.)
pub proof fn lemma_setting_reads_back(
    m: Seq<(Seq<char>, JsonView)>,
    source: Seq<char>,
    key: Seq<char>,
    value: JsonView,
    other_source: Seq<char>,
    other_key: Seq<char>,
)
    requires
        match lookup(all_settings(m), source) {
            None => true,
            Some(v) => v is Object,
        },
    ensures
        ({
            let n = with_setting(m, source, key, value);
            &&& lookup(settings_of(n, source), key) == Some(value)
            &&& other_key != key ==> lookup(settings_of(n, source), other_key) == lookup(
                settings_of(m, source),
                other_key,
            )
            &&& other_source != source ==> settings_of(n, other_source) == settings_of(
                m,
                other_source,
            )
            &&& other_key != "source-settings"@ ==> lookup(n, other_key) == lookup(m, other_key)
        }),
{
    let all = all_settings(m);
    let entry = entry_with(lookup(all, source), key, value);
    let put = JsonView::Object(with_member(all, source, entry));
    let own = settings_of(m, source);
    lemma_set_member(m, "source-settings"@, put, "source-settings"@);
    lemma_set_member(m, "source-settings"@, put, other_key);
    lemma_set_member(all, source, entry, source);
    lemma_set_member(all, source, entry, other_source);
    lemma_set_member(own, key, value, key);
    lemma_set_member(own, key, value, other_key);
}

/// A document that is read back stays one where a global key is set: a file
/// that was loaded, changed and written is loaded again with the change, and
/// with every other key as it was.
pub proof fn lemma_key_rereads(
    m: Seq<(Seq<char>, JsonView)>,
    key: Seq<char>,
    value: JsonView,
    other: Seq<char>,
)
    requires
        rereads(m),
        integral(value),
        well_formed(value),
        plain(value, (max_depth() - 1) as nat),
    ensures
        rereads(with_member(m, key, value)),
        lookup(with_member(m, key, value), key) == Some(value),
        other != key ==> lookup(with_member(m, key, value), other) == lookup(m, other),
{
    lemma_integral_canonical(value);
    lemma_set_member_well_formed(m, key, value);
    lemma_set_member_plain(m, key, value, max_depth());
    lemma_set_member(m, key, value, key);
    lemma_set_member(m, key, value, other);
}

/// A document that is read back stays one where a setting of a source is set.
pub proof fn lemma_setting_rereads(
    m: Seq<(Seq<char>, JsonView)>,
    source: Seq<char>,
    key: Seq<char>,
    value: JsonView,
)
    requires
        rereads(m),
        integral(value),
        well_formed(value),
        plain(value, (max_depth() - 3) as nat),
    ensures
        rereads(with_setting(m, source, key, value)),
{
    let two = (max_depth() - 2) as nat;
    let one = (max_depth() - 1) as nat;
    let all = all_settings(m);
    let empty = Seq::<(Seq<char>, JsonView)>::empty();
    lemma_integral_canonical(value);
    if lookup(m, "source-settings"@) is Some {
        lemma_member_plain(m, "source-settings"@, max_depth());
    }
    assert(well_formed(JsonView::Object(all)) && canonical(JsonView::Object(all)) && plain(
        JsonView::Object(all),
        one,
    ));
    let found = lookup(all, source);
    if found is Some {
        lemma_member_plain(all, source, one);
    }
    let own = match found {
        Some(JsonView::Object(o)) => o,
        _ => empty,
    };
    assert(well_formed(JsonView::Object(own)) && canonical(JsonView::Object(own)) && plain(
        JsonView::Object(own),
        two,
    ));
    lemma_set_member_well_formed(own, key, value);
    lemma_set_member_plain(own, key, value, two);
    let entry = entry_with(found, key, value);
    assert(well_formed(entry) && canonical(entry) && plain(entry, two));
    lemma_set_member_well_formed(all, source, entry);
    lemma_set_member_plain(all, source, entry, one);
    let put = JsonView::Object(with_member(all, source, entry));
    lemma_set_member_well_formed(m, "source-settings"@, put);
    lemma_set_member_plain(m, "source-settings"@, put, max_depth());
}

/// Every reader of the file sees what was set, and whatever else was there: `n`
/// is what a reader finds once `key` was set in the document `m` and the file
/// written. (Numbers that are no integers may be read otherwise.)
pub proof fn lemma_set_seen_by_readers(
    m: Seq<(Seq<char>, JsonView)>,
    key: Seq<char>,
    value: JsonView,
    n: Seq<(Seq<char>, JsonView)>,
    other: Seq<char>,
)
    requires
        agrees(JsonView::Object(with_member(m, key, value)), JsonView::Object(n)),
        integral(value),
        other != key,
    ensures
        lookup(n, key) == Some(value),
        lookup(n, other) is Some == lookup(m, other) is Some,
        lookup(m, other) is Some ==> agrees(lookup(m, other)->0, lookup(n, other)->0),
        lookup(m, other) is Some && integral(lookup(m, other)->0) ==> lookup(n, other) == lookup(
            m,
            other,
        ),
{
    let set = with_member(m, key, value);
    lemma_set_member(m, key, value, key);
    lemma_set_member(m, key, value, other);
    lemma_agreed_member(set, n, key);
    lemma_agreed_member(set, n, other);
    lemma_agreed_equal(value, lookup(n, key)->0);
    if lookup(m, other) is Some && integral(lookup(m, other)->0) {
        lemma_agreed_equal(lookup(m, other)->0, lookup(n, other)->0);
    }
}

/// A global key that was set is read back, and no other key changes.
pub proof fn lemma_key_reads_back(
    m: Seq<(Seq<char>, JsonView)>,
    key: Seq<char>,
    value: Seq<char>,
    other: Seq<char>,
)
    ensures
        text_under(with_member(m, key, JsonView::Str(value)), key) == value,
        other != key ==> lookup(with_member(m, key, JsonView::Str(value)), other) == lookup(
            m,
            other,
        ),
{
    lemma_set_member(m, key, JsonView::Str(value), key);
    lemma_set_member(m, key, JsonView::Str(value), other);
}

/// The mode is remembered per source: a source's own mode is read back, and
/// setting it changes no other source's mode.
pub proof fn lemma_mode_per_source(
    m: Seq<(Seq<char>, JsonView)>,
    source: Seq<char>,
    mode: Seq<char>,
    other: Seq<char>,
)
    requires
        match lookup(all_settings(m), source) {
            None => true,
            Some(v) => v is Object,
        },
        mode.len() > 0,
    ensures
        mode_of(with_setting(m, source, "mode"@, JsonView::Str(mode)), source) == mode,
        other != source ==> mode_of(with_setting(m, source, "mode"@, JsonView::Str(mode)), other)
            == mode_of(m, other),
{
    reveal_strlit("wallpaper-mode");
    reveal_strlit("source-settings");
    assert("wallpaper-mode"@.len() != "source-settings"@.len());
    lemma_setting_reads_back(
        m,
        source,
        "mode"@,
        JsonView::Str(mode),
        other,
        "wallpaper-mode"@,
    );
}

/// Clamping an interval twice is clamping it once.
pub proof fn lemma_clamp_idempotent(secs: i64)
    ensures
        clamped(clamped(secs)) == clamped(secs),
{
}

/// An interval is read back as it was clamped.
pub proof fn lemma_interval_reads_back(
    m: Seq<(Seq<char>, JsonView)>,
    source: Seq<char>,
    secs: i64,
)
    requires
        match lookup(all_settings(m), source) {
            None => true,
            Some(v) => v is Object,
        },
    ensures
        interval_of(
            with_setting(m, source, "update-interval"@, JsonView::Int(clamped(secs) as int)),
            source,
        ) == clamped(secs),
{
    lemma_setting_reads_back(
        m,
        source,
        "update-interval"@,
        JsonView::Int(clamped(secs) as int),
        source,
        "update-interval"@,
    );
}

} // verus!
