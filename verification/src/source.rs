//! Wallpaper sources: their settings, what a fetch yields, and the built-in
//! ones.

use vstd::prelude::*;

use crate::date::Date;
use crate::i18n::gettext;
use crate::json::{
    bool_in, boolean, int_in, integer, lookup, string, string_in, with_member, Json, JsonMap,
};
use crate::sources::{
    BingSource, EarthViewSource, EuropeanaSource, NasaApodSource, PicsumSource, SpotlightSource,
    WikimediaPotdSource,
};
use crate::text::{concat, free_of, opt_text, same, texts};

verus! {

/// A setting that a source offers; the user interface builds a control from it.
#[derive(Debug)]
#[allow(inconsistent_fields)]
pub enum SettingSpec {
    String { key: &'static str, label: String, default: &'static str },
    Int { key: &'static str, label: String, default: i64, min: i64, max: i64 },
    Bool { key: &'static str, label: String, default: bool },
    /// `choices` holds pairs of a value and its display text.
    Choice {
        key: &'static str,
        label: String,
        choices: Vec<(&'static str, String)>,
        default: &'static str,
    },
}

/// A setting as mathematical values.
#[allow(inconsistent_fields)]
pub enum SettingView {
    String { key: Seq<char>, label: Seq<char>, default: Seq<char> },
    Int { key: Seq<char>, label: Seq<char>, default: i64, min: i64, max: i64 },
    Bool { key: Seq<char>, label: Seq<char>, default: bool },
    Choice {
        key: Seq<char>,
        label: Seq<char>,
        choices: Seq<(Seq<char>, Seq<char>)>,
        default: Seq<char>,
    },
}

/// The pairs of a value and its display text.
pub open spec fn choice_views(choices: Seq<(&'static str, String)>) -> Seq<(Seq<char>, Seq<char>)> {
    Seq::new(choices.len(), |i: int| (choices[i].0@, choices[i].1@))
}

impl View for SettingSpec {
    type V = SettingView;

    open spec fn view(&self) -> SettingView {
        match self {
            SettingSpec::String { key, label, default } => SettingView::String {
                key: key@,
                label: label@,
                default: default@,
            },
            SettingSpec::Int { key, label, default, min, max } => SettingView::Int {
                key: key@,
                label: label@,
                default: *default,
                min: *min,
                max: *max,
            },
            SettingSpec::Bool { key, label, default } => SettingView::Bool {
                key: key@,
                label: label@,
                default: *default,
            },
            SettingSpec::Choice { key, label, choices, default } => SettingView::Choice {
                key: key@,
                label: label@,
                choices: choice_views(choices@),
                default: default@,
            },
        }
    }
}

pub open spec fn setting_views(v: Seq<SettingSpec>) -> Seq<SettingView> {
    Seq::new(v.len(), |i: int| v[i]@)
}

impl SettingView {
    pub open spec fn key(self) -> Seq<char> {
        match self {
            SettingView::String { key, .. } => key,
            SettingView::Int { key, .. } => key,
            SettingView::Bool { key, .. } => key,
            SettingView::Choice { key, .. } => key,
        }
    }

    pub open spec fn label(self) -> Seq<char> {
        match self {
            SettingView::String { label, .. } => label,
            SettingView::Int { label, .. } => label,
            SettingView::Bool { label, .. } => label,
            SettingView::Choice { label, .. } => label,
        }
    }
}

impl SettingSpec {
    /// The key under which the setting is stored.
    pub fn key(&self) -> (r: &'static str)
        ensures
            r@ == self@.key(),
    {
        match self {
            SettingSpec::String { key, .. } => key,
            SettingSpec::Int { key, .. } => key,
            SettingSpec::Bool { key, .. } => key,
            SettingSpec::Choice { key, .. } => key,
        }
    }

    /// The text shown beside the control.
    pub fn label(&self) -> (r: &str)
        ensures
            r@ == self@.label(),
    {
        match self {
            SettingSpec::String { label, .. } => label.as_str(),
            SettingSpec::Int { label, .. } => label.as_str(),
            SettingSpec::Bool { label, .. } => label.as_str(),
            SettingSpec::Choice { label, .. } => label.as_str(),
        }
    }
}

/// The configured values of one source; a key that is not configured, or whose
/// value has another type, reads as the caller's default.
#[derive(Debug)]
pub struct SourceSettings(pub JsonMap);

impl Default for SourceSettings {
    fn default() -> (r: SourceSettings)
        ensures
            r.0@ == Seq::<(Seq<char>, crate::json::JsonView)>::empty(),
    {
        SourceSettings(JsonMap::new())
    }
}

pub open spec fn or_text(o: Option<Seq<char>>, default: Seq<char>) -> Seq<char> {
    match o {
        Some(s) => s,
        None => default,
    }
}

pub open spec fn or_int(o: Option<i64>, default: i64) -> i64 {
    match o {
        Some(n) => n,
        None => default,
    }
}

pub open spec fn or_bool(o: Option<bool>, default: bool) -> bool {
    match o {
        Some(b) => b,
        None => default,
    }
}

impl SourceSettings {
    pub open spec fn str_at(&self, key: Seq<char>, default: Seq<char>) -> Seq<char> {
        or_text(string_in(lookup(self.0@, key)), default)
    }

    pub open spec fn i64_at(&self, key: Seq<char>, default: i64) -> i64 {
        or_int(int_in(lookup(self.0@, key)), default)
    }

    pub open spec fn bool_at(&self, key: Seq<char>, default: bool) -> bool {
        or_bool(bool_in(lookup(self.0@, key)), default)
    }

    pub fn get_str(&self, key: &str, default: &str) -> (r: String)
        ensures
            r@ == self.str_at(key@, default@),
    {
        match string(self.0.get(key)) {
            Some(s) => s,
            None => default.to_owned(),
        }
    }

    pub fn get_i64(&self, key: &str, default: i64) -> (r: i64)
        ensures
            r == self.i64_at(key@, default),
    {
        match integer(self.0.get(key)) {
            Some(n) => n,
            None => default,
        }
    }

    pub fn get_bool(&self, key: &str, default: bool) -> (r: bool)
        ensures
            r == self.bool_at(key@, default),
    {
        match boolean(self.0.get(key)) {
            Some(b) => b,
            None => default,
        }
    }

    pub fn set(&mut self, key: &str, value: Json)
        ensures
            final(self).0@ == with_member(old(self).0@, key@, value@),
    {
        self.0.insert(key, value);
    }
}

/// Named texts, such as the metadata of an image.
#[derive(Debug)]
pub struct TextMap {
    pub entries: Vec<(String, String)>,
}

/// The text of the first entry called `key`.
pub open spec fn text_at(entries: Seq<(Seq<char>, Seq<char>)>, key: Seq<char>) -> Option<Seq<char>>
    decreases entries.len(),
{
    if entries.len() == 0 {
        None
    } else if entries[0].0 == key {
        Some(entries[0].1)
    } else {
        text_at(entries.skip(1), key)
    }
}

/// The first entry called `key`, or the number of entries.
pub open spec fn text_position(
    entries: Seq<(Seq<char>, Seq<char>)>,
    key: Seq<char>,
    from: int,
) -> int
    decreases entries.len() - from,
{
    if from >= entries.len() {
        entries.len() as int
    } else if entries[from].0 == key {
        from
    } else {
        text_position(entries, key, from + 1)
    }
}

/// The entries with the text called `key` set to `value`.
pub open spec fn with_text(
    entries: Seq<(Seq<char>, Seq<char>)>,
    key: Seq<char>,
    value: Seq<char>,
) -> Seq<(Seq<char>, Seq<char>)> {
    let i = text_position(entries, key, 0);
    if i < entries.len() {
        entries.update(i, (key, value))
    } else {
        entries.push((key, value))
    }
}

impl View for TextMap {
    type V = Seq<(Seq<char>, Seq<char>)>;

    open spec fn view(&self) -> Seq<(Seq<char>, Seq<char>)> {
        Seq::new(self.entries@.len(), |i: int| (self.entries@[i].0@, self.entries@[i].1@))
    }
}

impl TextMap {
    pub fn new() -> (r: TextMap)
        ensures
            r@ == Seq::<(Seq<char>, Seq<char>)>::empty(),
    {
        let r = TextMap { entries: Vec::new() };
        assert(r@ =~= Seq::<(Seq<char>, Seq<char>)>::empty());
        r
    }

    /// The text called `key`.
    pub fn get(&self, key: &str) -> (r: Option<&String>)
        ensures
            match r {
                Some(s) => text_at(self@, key@) == Some(s@),
                None => text_at(self@, key@) is None,
            },
    {
        let mut i: usize = 0;
        assert(self@.skip(0) =~= self@);
        while i < self.entries.len()
            invariant
                i <= self.entries.len(),
                text_at(self@, key@) == text_at(self@.skip(i as int), key@),
            decreases self.entries.len() - i,
        {
            assert(self@.skip(i as int).skip(1) =~= self@.skip(i + 1));
            assert(self@.skip(i as int)[0] == self@[i as int]);
            if same(self.entries[i].0.as_str(), key) {
                return Some(&self.entries[i].1);
            }
            i += 1;
        }
        None
    }

    pub fn contains_key(&self, key: &str) -> (r: bool)
        ensures
            r == (text_at(self@, key@) is Some),
    {
        self.get(key).is_some()
    }

    /// Sets the text called `key`.
    pub fn insert(&mut self, key: &str, value: String)
        ensures
            final(self)@ == with_text(old(self)@, key@, value@),
    {
        let ghost before = self@;
        let ghost added = (key@, value@);
        let mut i: usize = 0;
        while i < self.entries.len() && !same(self.entries[i].0.as_str(), key)
            invariant
                i <= self.entries.len(),
                self@ == before,
                text_position(before, key@, 0) == text_position(before, key@, i as int),
            decreases self.entries.len() - i,
        {
            assert(before[i as int].0 == self.entries@[i as int].0@);
            i += 1;
        }
        if i < self.entries.len() {
            assert(before[i as int].0 == self.entries@[i as int].0@);
            self.entries.set(i, (key.to_owned(), value));
            assert(self@ =~= before.update(i as int, added));
        } else {
            self.entries.push((key.to_owned(), value));
            assert(self@ =~= before.push(added));
        }
    }

    /// Adds an entry behind the others.
    pub(crate) fn push(&mut self, key: &str, value: String)
        ensures
            final(self)@ == old(self)@.push((key@, value@)),
    {
        let ghost before = self@;
        let ghost added = (key@, value@);
        self.entries.push((key.to_owned(), value));
        assert(self@ =~= before.push(added));
    }

    pub fn copy(&self) -> (r: TextMap)
        ensures
            r@ == self@,
    {
        let mut out = TextMap::new();
        let mut i: usize = 0;
        while i < self.entries.len()
            invariant
                i <= self.entries.len(),
                out@ == self@.take(i as int),
            decreases self.entries.len() - i,
        {
            out.push(self.entries[i].0.as_str(), self.entries[i].1.clone());
            assert(self@.take(i + 1) =~= self@.take(i as int).push(self@[i as int]));
            i += 1;
        }
        assert(self@.take(i as int) =~= self@);
        out
    }
}

/// What a successful fetch yields.
#[derive(Debug)]
pub struct FetchResult {
    /// Remote URL of the image.
    pub image_url: String,
    pub title: String,
    pub copyright: Option<String>,
    /// The image's own day; the file is named after it.
    pub date: Option<Date>,
    /// Further metadata for the description file.
    pub extra: TextMap,
}

pub struct FetchView {
    pub image_url: Seq<char>,
    pub title: Seq<char>,
    pub copyright: Option<Seq<char>>,
    pub date: Option<Date>,
    pub extra: Seq<(Seq<char>, Seq<char>)>,
}

impl View for FetchResult {
    type V = FetchView;

    open spec fn view(&self) -> FetchView {
        FetchView {
            image_url: self.image_url@,
            title: self.title@,
            copyright: opt_text(self.copyright),
            date: self.date,
            extra: self.extra@,
        }
    }
}

/// Why a reply yields no image.
#[derive(Clone, Copy, Debug, PartialEq, Eq, Structural)]
pub enum FetchProblem {
    /// The reply is no JSON document; the detail says which one.
    NotJson,
    BingNoImages,
    BingNoUrlbase,
    BingNoUrl,
    EarthNotList,
    EarthEmpty,
    EarthNoImage,
    EuropeanaApi,
    EuropeanaNoItems,
    EuropeanaNoImage,
    ApodNotImage,
    ApodNoUrl,
    PicsumNotList,
    PicsumEmpty,
    PicsumNoId,
    SpotlightNoItems,
    SpotlightBadItem,
    SpotlightNoAd,
    SpotlightNoUrl,
    PotdNoPage,
    PotdNoInfo,
    PotdNoUrl,
}

/// A failed fetch: the problem, and the detail that its message shows.
#[derive(Debug)]
pub struct FetchError {
    pub problem: FetchProblem,
    pub detail: String,
}

pub open spec fn outcome(r: Result<FetchResult, FetchError>) -> Result<
    FetchView,
    (FetchProblem, Seq<char>),
> {
    match r {
        Ok(f) => Ok(f@),
        Err(e) => Err((e.problem, e.detail@)),
    }
}

/// A problem without a detail.
pub open spec fn plainly(problem: FetchProblem) -> Result<
    FetchView,
    (FetchProblem, Seq<char>),
> {
    Err((problem, Seq::empty()))
}

pub fn failed(problem: FetchProblem) -> (r: FetchError)
    ensures
        r.problem == problem,
        r.detail@ == Seq::<char>::empty(),
{
    let detail = String::new();
    assert(detail@ =~= Seq::<char>::empty());
    FetchError { problem, detail }
}

/// A reply that is no JSON document: what was to be read, and the reason.
pub open spec fn unreadable(what: Seq<char>, reason: Seq<char>) -> Result<
    FetchView,
    (FetchProblem, Seq<char>),
> {
    Err((FetchProblem::NotJson, what + ": "@ + reason))
}

pub fn failed_reading(what: &str, reason: &str) -> (r: FetchError)
    ensures
        Err::<FetchView, _>((r.problem, r.detail@)) == unreadable(what@, reason@),
{
    FetchError {
        problem: FetchProblem::NotJson,
        detail: concat(concat(what, ": ").as_str(), reason),
    }
}

/// The message for a problem; `video` says that the entry of a day is skipped.
pub open spec fn problem_text(problem: FetchProblem, detail: Seq<char>, video: Seq<char>) -> Seq<
    char,
> {
    match problem {
        FetchProblem::NotJson => detail,
        FetchProblem::BingNoImages => "no images in Bing response"@,
        FetchProblem::BingNoUrlbase => "Bing response missing urlbase field"@,
        FetchProblem::BingNoUrl => "Bing response missing url field"@,
        FetchProblem::EarthNotList => "Earth View catalogue is not a list"@,
        FetchProblem::EarthEmpty => "Earth View catalogue is empty"@,
        FetchProblem::EarthNoImage => "Earth View entry missing image field"@,
        FetchProblem::EuropeanaApi => "Europeana API error: "@ + detail,
        FetchProblem::EuropeanaNoItems => "no items in Europeana response"@,
        FetchProblem::EuropeanaNoImage => "no image in Europeana response"@,
        FetchProblem::ApodNotImage => video + ": "@ + detail,
        FetchProblem::ApodNoUrl => "APOD response missing image URL"@,
        FetchProblem::PicsumNotList => "Lorem Picsum list is not an array"@,
        FetchProblem::PicsumEmpty => "Lorem Picsum list is empty on page "@ + detail,
        FetchProblem::PicsumNoId => "Lorem Picsum entry missing id"@,
        FetchProblem::SpotlightNoItems => "Spotlight response missing items ("@ + detail + ")"@,
        FetchProblem::SpotlightBadItem => "failed to parse Spotlight item: "@ + detail,
        FetchProblem::SpotlightNoAd => "Spotlight response missing ad data"@,
        FetchProblem::SpotlightNoUrl => "Spotlight response missing image URL"@,
        FetchProblem::PotdNoPage => "no image information in POTD response"@,
        FetchProblem::PotdNoInfo => "POTD response missing imageinfo"@,
        FetchProblem::PotdNoUrl => "POTD response missing image URL"@,
    }
}

impl FetchError {
    /// The message; `video` says that the entry of a day is skipped.
    pub fn message_in(&self, video: &str) -> (r: String)
        ensures
            r@ == problem_text(self.problem, self.detail@, video@),
    {
        let detail = self.detail.as_str();
        match self.problem {
            FetchProblem::NotJson => detail.to_owned(),
            FetchProblem::BingNoImages => "no images in Bing response".to_owned(),
            FetchProblem::BingNoUrlbase => "Bing response missing urlbase field".to_owned(),
            FetchProblem::BingNoUrl => "Bing response missing url field".to_owned(),
            FetchProblem::EarthNotList => "Earth View catalogue is not a list".to_owned(),
            FetchProblem::EarthEmpty => "Earth View catalogue is empty".to_owned(),
            FetchProblem::EarthNoImage => "Earth View entry missing image field".to_owned(),
            FetchProblem::EuropeanaApi => concat("Europeana API error: ", detail),
            FetchProblem::EuropeanaNoItems => "no items in Europeana response".to_owned(),
            FetchProblem::EuropeanaNoImage => "no image in Europeana response".to_owned(),
            FetchProblem::ApodNotImage => concat(concat(video, ": ").as_str(), detail),
            FetchProblem::ApodNoUrl => "APOD response missing image URL".to_owned(),
            FetchProblem::PicsumNotList => "Lorem Picsum list is not an array".to_owned(),
            FetchProblem::PicsumEmpty => concat("Lorem Picsum list is empty on page ", detail),
            FetchProblem::PicsumNoId => "Lorem Picsum entry missing id".to_owned(),
            FetchProblem::SpotlightNoItems => concat(
                concat("Spotlight response missing items (", detail).as_str(),
                ")",
            ),
            FetchProblem::SpotlightBadItem => concat("failed to parse Spotlight item: ", detail),
            FetchProblem::SpotlightNoAd => "Spotlight response missing ad data".to_owned(),
            FetchProblem::SpotlightNoUrl => "Spotlight response missing image URL".to_owned(),
            FetchProblem::PotdNoPage => "no image information in POTD response".to_owned(),
            FetchProblem::PotdNoInfo => "POTD response missing imageinfo".to_owned(),
            FetchProblem::PotdNoUrl => "POTD response missing image URL".to_owned(),
        }
    }

    /// The message, in the language of the process where it is translated.
    pub fn message(&self) -> (r: String)
        ensures
            exists|video: Seq<char>|
                r@ == #[trigger] problem_text(self.problem, self.detail@, video),
    {
        proof {
            reveal_strlit("Today's APOD entry is a video, skipped");
        }
        self.message_in(gettext("Today's APOD entry is a video, skipped").as_str())
    }
}

/// The entry `key`, where there is a text for it.
pub open spec fn entry_for(key: Seq<char>, text: Option<Seq<char>>) -> Seq<(Seq<char>, Seq<char>)> {
    match text {
        Some(s) => seq![(key, s)],
        None => Seq::empty(),
    }
}

pub fn push_entry(map: &mut TextMap, key: &str, text: Option<String>)
    ensures
        final(map)@ == old(map)@ + entry_for(key@, opt_text(text)),
{
    match text {
        Some(s) => {
            map.push(key, s);
        },
        None => {},
    }
    assert(map@ =~= old(map)@ + entry_for(key@, opt_text(text)));
}

pub open spec fn str_texts(v: Seq<&'static str>) -> Seq<Seq<char>> {
    Seq::new(v.len(), |i: int| v[i]@)
}

/// No message holds a NUL character.
pub open spec fn translatable(v: Seq<Seq<char>>) -> bool {
    forall|i: int| 0 <= i < v.len() ==> free_of(#[trigger] v[i], '\0')
}

/// The messages in the language of the process.
pub fn translated(messages: &Vec<&'static str>) -> (r: Vec<String>)
    requires
        translatable(str_texts(messages@)),
    ensures
        r.len() == messages.len(),
{
    let mut out: Vec<String> = Vec::new();
    let mut i: usize = 0;
    while i < messages.len()
        invariant
            i <= messages.len(),
            out.len() == i,
            translatable(str_texts(messages@)),
        decreases messages.len() - i,
    {
        assert(free_of(str_texts(messages@)[i as int], '\0'));
        out.push(gettext(messages[i]));
        i += 1;
    }
    out
}

pub(crate) fn push_choice(
    choices: &mut Vec<(&'static str, String)>,
    value: &'static str,
    text: &str,
)
    ensures
        choice_views(final(choices)@) == choice_views(old(choices)@).push((value@, text@)),
{
    choices.push((value, text.to_owned()));
    assert(choice_views(choices@) =~= choice_views(old(choices)@).push((value@, text@)));
}

pub(crate) fn push_setting(settings: &mut Vec<SettingSpec>, setting: SettingSpec)
    ensures
        setting_views(final(settings)@) == setting_views(old(settings)@).push(setting@),
{
    settings.push(setting);
    assert(setting_views(settings@) =~= setting_views(old(settings)@).push(setting@));
}

/// The label of the choice that follows the system, with what it stands for:
/// `Auto (zh-CN)`.
pub open spec fn auto_text(auto: Seq<char>, resolved: Seq<char>) -> Seq<char> {
    auto + " ("@ + resolved + ")"@
}

pub fn auto_label(auto: &str, resolved: &str) -> (r: String)
    ensures
        r@ == auto_text(auto@, resolved@),
{
    let mut s = concat(auto, " (");
    s.append(resolved);
    s.append(")");
    s
}

/// A name as it is shown: the English one, or in the language of the process.
pub(crate) fn shown_name(name: (&'static str, bool)) -> (r: String)
    requires
        free_of(name.0@, '\0'),
    ensures
        !name.1 ==> r@ == name.0@,
{
    if name.1 {
        gettext(name.0)
    } else {
        name.0.to_owned()
    }
}

/// A wallpaper source, without any state of its own.
pub trait Source {
    spec fn spec_id(&self) -> Seq<char>;

    spec fn is_daily(&self) -> bool;

    spec fn english_name(&self) -> Seq<char>;

    /// The name is shown in the language of the process.
    spec fn translates_name(&self) -> bool;

    /// The messages that the settings show, to be translated.
    spec fn setting_messages(&self) -> Seq<Seq<char>>;

    /// The settings with the translated messages, for a system locale.
    spec fn settings_for(&self, texts: Seq<Seq<char>>, system: Seq<char>) -> Seq<SettingView>;

    fn id(&self) -> (r: &'static str)
        ensures
            r@ == self.spec_id(),
    ;

    /// The English name, and whether it is to be translated.
    fn name(&self) -> (r: (&'static str, bool))
        ensures
            r.0@ == self.english_name(),
            r.1 == self.translates_name(),
            free_of(r.0@, '\0'),
    ;

    /// The name that is shown.
    fn display_name(&self) -> (r: String)
        ensures
            !self.translates_name() ==> r@ == self.english_name(),
    ;

    /// The messages that the settings show.
    fn messages(&self) -> (r: Vec<&'static str>)
        ensures
            str_texts(r@) == self.setting_messages(),
            translatable(self.setting_messages()),
    ;

    /// The settings with the translated messages, for a system locale.
    fn settings_in(&self, translations: &Vec<String>, system: &str) -> (r: Vec<SettingSpec>)
        requires
            translations.len() == self.setting_messages().len(),
        ensures
            setting_views(r@) == self.settings_for(texts(translations@), system@),
    ;

    /// The settings, with labels in the language of the process.
    fn settings(&self, system: &str) -> (r: Vec<SettingSpec>)
        ensures
            exists|t: Seq<Seq<char>>|
                t.len() == self.setting_messages().len() && setting_views(r@)
                    == #[trigger] self.settings_for(t, system@),
    {
        let messages = self.messages();
        let t = translated(&messages);
        self.settings_in(&t, system)
    }

    /// Whether the source publishes one image per calendar day; a day that is
    /// stored already need not be fetched again.
    fn daily(&self) -> (r: bool)
        ensures
            r == self.is_daily(),
    ;
}

/// The built-in sources.
#[derive(Clone, Copy, Debug, PartialEq, Eq, Structural)]
pub enum BuiltIn {
    Bing,
    Spotlight,
    Nasa,
    Wikimedia,
    EarthView,
    Picsum,
    Europeana,
}

impl Source for BuiltIn {
    open spec fn spec_id(&self) -> Seq<char> {
        match self {
            BuiltIn::Bing => BingSource.spec_id(),
            BuiltIn::Spotlight => SpotlightSource.spec_id(),
            BuiltIn::Nasa => NasaApodSource.spec_id(),
            BuiltIn::Wikimedia => WikimediaPotdSource.spec_id(),
            BuiltIn::EarthView => EarthViewSource.spec_id(),
            BuiltIn::Picsum => PicsumSource.spec_id(),
            BuiltIn::Europeana => EuropeanaSource.spec_id(),
        }
    }

    open spec fn is_daily(&self) -> bool {
        match self {
            BuiltIn::Bing => BingSource.is_daily(),
            BuiltIn::Spotlight => SpotlightSource.is_daily(),
            BuiltIn::Nasa => NasaApodSource.is_daily(),
            BuiltIn::Wikimedia => WikimediaPotdSource.is_daily(),
            BuiltIn::EarthView => EarthViewSource.is_daily(),
            BuiltIn::Picsum => PicsumSource.is_daily(),
            BuiltIn::Europeana => EuropeanaSource.is_daily(),
        }
    }

    open spec fn english_name(&self) -> Seq<char> {
        match self {
            BuiltIn::Bing => BingSource.english_name(),
            BuiltIn::Spotlight => SpotlightSource.english_name(),
            BuiltIn::Nasa => NasaApodSource.english_name(),
            BuiltIn::Wikimedia => WikimediaPotdSource.english_name(),
            BuiltIn::EarthView => EarthViewSource.english_name(),
            BuiltIn::Picsum => PicsumSource.english_name(),
            BuiltIn::Europeana => EuropeanaSource.english_name(),
        }
    }

    open spec fn translates_name(&self) -> bool {
        match self {
            BuiltIn::Bing => BingSource.translates_name(),
            BuiltIn::Spotlight => SpotlightSource.translates_name(),
            BuiltIn::Nasa => NasaApodSource.translates_name(),
            BuiltIn::Wikimedia => WikimediaPotdSource.translates_name(),
            BuiltIn::EarthView => EarthViewSource.translates_name(),
            BuiltIn::Picsum => PicsumSource.translates_name(),
            BuiltIn::Europeana => EuropeanaSource.translates_name(),
        }
    }

    open spec fn setting_messages(&self) -> Seq<Seq<char>> {
        match self {
            BuiltIn::Bing => BingSource.setting_messages(),
            BuiltIn::Spotlight => SpotlightSource.setting_messages(),
            BuiltIn::Nasa => NasaApodSource.setting_messages(),
            BuiltIn::Wikimedia => WikimediaPotdSource.setting_messages(),
            BuiltIn::EarthView => EarthViewSource.setting_messages(),
            BuiltIn::Picsum => PicsumSource.setting_messages(),
            BuiltIn::Europeana => EuropeanaSource.setting_messages(),
        }
    }

    open spec fn settings_for(&self, texts: Seq<Seq<char>>, system: Seq<char>) -> Seq<SettingView> {
        match self {
            BuiltIn::Bing => BingSource.settings_for(texts, system),
            BuiltIn::Spotlight => SpotlightSource.settings_for(texts, system),
            BuiltIn::Nasa => NasaApodSource.settings_for(texts, system),
            BuiltIn::Wikimedia => WikimediaPotdSource.settings_for(texts, system),
            BuiltIn::EarthView => EarthViewSource.settings_for(texts, system),
            BuiltIn::Picsum => PicsumSource.settings_for(texts, system),
            BuiltIn::Europeana => EuropeanaSource.settings_for(texts, system),
        }
    }

    fn id(&self) -> (r: &'static str) {
        match self {
            BuiltIn::Bing => BingSource.id(),
            BuiltIn::Spotlight => SpotlightSource.id(),
            BuiltIn::Nasa => NasaApodSource.id(),
            BuiltIn::Wikimedia => WikimediaPotdSource.id(),
            BuiltIn::EarthView => EarthViewSource.id(),
            BuiltIn::Picsum => PicsumSource.id(),
            BuiltIn::Europeana => EuropeanaSource.id(),
        }
    }

    fn name(&self) -> (r: (&'static str, bool)) {
        match self {
            BuiltIn::Bing => BingSource.name(),
            BuiltIn::Spotlight => SpotlightSource.name(),
            BuiltIn::Nasa => NasaApodSource.name(),
            BuiltIn::Wikimedia => WikimediaPotdSource.name(),
            BuiltIn::EarthView => EarthViewSource.name(),
            BuiltIn::Picsum => PicsumSource.name(),
            BuiltIn::Europeana => EuropeanaSource.name(),
        }
    }

    fn display_name(&self) -> (r: String) {
        match self {
            BuiltIn::Bing => BingSource.display_name(),
            BuiltIn::Spotlight => SpotlightSource.display_name(),
            BuiltIn::Nasa => NasaApodSource.display_name(),
            BuiltIn::Wikimedia => WikimediaPotdSource.display_name(),
            BuiltIn::EarthView => EarthViewSource.display_name(),
            BuiltIn::Picsum => PicsumSource.display_name(),
            BuiltIn::Europeana => EuropeanaSource.display_name(),
        }
    }

    fn messages(&self) -> (r: Vec<&'static str>) {
        match self {
            BuiltIn::Bing => BingSource.messages(),
            BuiltIn::Spotlight => SpotlightSource.messages(),
            BuiltIn::Nasa => NasaApodSource.messages(),
            BuiltIn::Wikimedia => WikimediaPotdSource.messages(),
            BuiltIn::EarthView => EarthViewSource.messages(),
            BuiltIn::Picsum => PicsumSource.messages(),
            BuiltIn::Europeana => EuropeanaSource.messages(),
        }
    }

    fn settings_in(&self, translations: &Vec<String>, system: &str) -> (r: Vec<SettingSpec>) {
        match self {
            BuiltIn::Bing => BingSource.settings_in(translations, system),
            BuiltIn::Spotlight => SpotlightSource.settings_in(translations, system),
            BuiltIn::Nasa => NasaApodSource.settings_in(translations, system),
            BuiltIn::Wikimedia => WikimediaPotdSource.settings_in(translations, system),
            BuiltIn::EarthView => EarthViewSource.settings_in(translations, system),
            BuiltIn::Picsum => PicsumSource.settings_in(translations, system),
            BuiltIn::Europeana => EuropeanaSource.settings_in(translations, system),
        }
    }

    fn daily(&self) -> (r: bool) {
        match self {
            BuiltIn::Bing => BingSource.daily(),
            BuiltIn::Spotlight => SpotlightSource.daily(),
            BuiltIn::Nasa => NasaApodSource.daily(),
            BuiltIn::Wikimedia => WikimediaPotdSource.daily(),
            BuiltIn::EarthView => EarthViewSource.daily(),
            BuiltIn::Picsum => PicsumSource.daily(),
            BuiltIn::Europeana => EuropeanaSource.daily(),
        }
    }
}

pub open spec fn built_ins() -> Seq<BuiltIn> {
    seq![
        BuiltIn::Bing,
        BuiltIn::Spotlight,
        BuiltIn::Nasa,
        BuiltIn::Wikimedia,
        BuiltIn::EarthView,
        BuiltIn::Picsum,
        BuiltIn::Europeana,
    ]
}

/// All built-in sources, in the order in which they are offered.
pub fn registry() -> (r: Vec<BuiltIn>)
    ensures
        r@ == built_ins(),
{
    let r: Vec<BuiltIn> = vec![
        BuiltIn::Bing,
        BuiltIn::Spotlight,
        BuiltIn::Nasa,
        BuiltIn::Wikimedia,
        BuiltIn::EarthView,
        BuiltIn::Picsum,
        BuiltIn::Europeana,
    ];
    assert(r@ =~= built_ins());
    r
}

/// The source with an id.
pub fn by_id(id: &str) -> (r: Option<BuiltIn>)
    ensures
        match r {
            Some(s) => s.spec_id() == id@,
            None => forall|s: BuiltIn| #[trigger] s.spec_id() != id@,
        },
{
    let all = registry();
    let mut i: usize = 0;
    while i < all.len()
        invariant
            i <= all.len(),
            all@ == built_ins(),
            forall|j: int| 0 <= j < i ==> (#[trigger] all@[j]).spec_id() != id@,
        decreases all.len() - i,
    {
        if same(all[i].id(), id) {
            return Some(all[i]);
        }
        i += 1;
    }
    assert forall|s: BuiltIn| #[trigger] s.spec_id() != id@ by {
        lemma_registered(s);
        let j = choose|j: int| 0 <= j < built_ins().len() && built_ins()[j] == s;
        assert(all@[j].spec_id() != id@);
    }
    None
}

/// Every built-in source is registered.
pub proof fn lemma_registered(s: BuiltIn)
    ensures
        built_ins().contains(s),
{
    match s {
        BuiltIn::Bing => assert(built_ins()[0] == s),
        BuiltIn::Spotlight => assert(built_ins()[1] == s),
        BuiltIn::Nasa => assert(built_ins()[2] == s),
        BuiltIn::Wikimedia => assert(built_ins()[3] == s),
        BuiltIn::EarthView => assert(built_ins()[4] == s),
        BuiltIn::Picsum => assert(built_ins()[5] == s),
        BuiltIn::Europeana => assert(built_ins()[6] == s),
    }
}

/// An id names one source only.
pub proof fn lemma_ids_distinct(a: BuiltIn, b: BuiltIn)
    requires
        a.spec_id() == b.spec_id(),
    ensures
        a == b,
{
    reveal_strlit("bing");
    reveal_strlit("spotlight");
    reveal_strlit("nasa");
    reveal_strlit("wikimedia");
    reveal_strlit("earthview");
    reveal_strlit("picsum");
    reveal_strlit("europeana");
    let x = a.spec_id();
    let y = b.spec_id();
    assert(x.len() == y.len());
    assert(x[0] == y[0] && x[1] == y[1]);
}

} // verus!
