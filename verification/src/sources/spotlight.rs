//! Windows Spotlight, through Microsoft's Iris service.
//!
//! The service answers only the Windows shell's user agent. A region without
//! coverage gets an empty reply; the request is then repeated for a fallback
//! country.

use vstd::prelude::*;

use crate::date::Date;
use crate::i18n::{fallback_of, gettext, locale_fallback};
use crate::json::{
    field, filled, filled_string, first, first_in, json_in_bytes, json_in_text, list, list_in,
    member, parse, parse_bytes, string, string_in, Json, JsonView,
};
use crate::source::{
    auto_label, auto_text, choice_views, entry_for, failed, failed_reading, or_text, outcome,
    plainly, push_choice, push_entry, push_setting, setting_views, shown_name, str_texts,
    unreadable, FetchError, FetchProblem, FetchResult, FetchView, SettingSpec, SettingView, Source,
    SourceSettings, TextMap,
};
use crate::sources::wikimedia::dated;
use crate::text::{has_char, opt_text, same, split, split_on, texts, upper, uppered};

verus! {

pub const API_URL: &'static str = "https://fd.api.iris.microsoft.com/v4/api/selection";

/// The placement of desktop wallpapers.
pub const PLACEMENT: &'static str = "88000820";

/// The user agent that the service answers.
pub const SHELL_UA: &'static str = "WindowsShellClient/10.0.22631.1";

/// The country that is asked for where a region has no coverage.
pub const FALLBACK_COUNTRY: &'static str = "US";

pub struct SpotlightSource;

/// A setting that follows the system.
pub open spec fn is_auto(value: Seq<char>) -> bool {
    value == ""@ || value == "auto"@
}

/// The system locale, or its fallback where it has no region.
pub open spec fn full_locale(system: Seq<char>) -> Seq<char> {
    if system.contains('-') {
        system
    } else {
        fallback_of(system).0
    }
}

/// The region of the system locale, where it has one.
pub open spec fn region_of(system: Seq<char>) -> Option<Seq<char>> {
    let parts = split(system, '-');
    if parts.len() > 1 {
        filled(Some(parts[1]))
    } else {
        None
    }
}

pub open spec fn locale_for(settings: &SourceSettings, system: Seq<char>) -> Seq<char> {
    let value = settings.str_at("locale"@, "auto"@);
    if is_auto(value) {
        full_locale(system)
    } else {
        value
    }
}

pub open spec fn country_for(settings: &SourceSettings, system: Seq<char>) -> Seq<char> {
    let value = settings.str_at("country"@, "auto"@);
    if is_auto(value) {
        match region_of(system) {
            Some(region) => upper(region),
            None => fallback_of(system).1,
        }
    } else {
        value
    }
}

pub open spec fn selection_url(country: Seq<char>, locale: Seq<char>) -> Seq<char> {
    API_URL@ + "?placement="@ + PLACEMENT@ + "&bcnt=1&country="@ + country + "&fmt=json&locale="@
        + locale
}

/// The system locale, or its fallback where it has no region.
pub fn with_region(system: &str) -> (r: String)
    ensures
        r@ == full_locale(system@),
{
    if has_char(system, '-') {
        system.to_owned()
    } else {
        locale_fallback(system).0.to_owned()
    }
}

/// The region of the system locale, where it has one.
pub fn system_region(system: &str) -> (r: Option<String>)
    ensures
        opt_text(r) == region_of(system@),
{
    let parts = split_on(system, '-');
    if parts.len() > 1 {
        assert(texts(parts@)[1] == parts@[1]@);
        filled_string(Some(parts[1].clone()))
    } else {
        assert(texts(parts@).len() == parts.len());
        None
    }
}

fn url_for(country: &str, locale: &str) -> (r: String)
    ensures
        r@ == selection_url(country@, locale@),
{
    let mut url = API_URL.to_owned();
    url.append("?placement=");
    url.append(PLACEMENT);
    url.append("&bcnt=1&country=");
    url.append(country);
    url.append("&fmt=json&locale=");
    url.append(locale);
    url
}

/// The items of a reply.
pub open spec fn items_of(json: JsonView) -> Option<JsonView> {
    member(member(Some(json), "batchrsp"@), "items"@)
}

/// The reply holds at least one item.
pub open spec fn covers(json: JsonView) -> bool {
    match list_in(items_of(json)) {
        Some(items) => items.len() > 0,
        None => false,
    }
}

/// Whether a reply holds at least one item.
pub fn has_items(json: &Json) -> (r: bool)
    ensures
        r == covers(json@),
{
    match list(field(field(Some(json), "batchrsp"), "items")) {
        Some(items) => items.len() > 0,
        None => false,
    }
}

/// What the service says went wrong.
pub open spec fn api_message(json: JsonView) -> Seq<char> {
    or_text(
        string_in(
            member(first_in(member(member(Some(json), "batchrsp"@), "errors"@)), "msg"@),
        ),
        "no items in response"@,
    )
}

/// The landscape image, else the portrait one, else a frame of the video.
pub open spec fn asset_of(ad: JsonView) -> Option<JsonView> {
    match member(member(Some(ad), "landscapeImage"@), "asset"@) {
        Some(v) => Some(v),
        None => match member(member(Some(ad), "portraitImage"@), "asset"@) {
            Some(v) => Some(v),
            None => member(member(Some(ad), "video"@), "PreviewImagePath"@),
        },
    }
}

/// What the description of an image yields.
pub open spec fn ad_result(ad: JsonView, untitled: Seq<char>) -> Result<
    FetchView,
    (FetchProblem, Seq<char>),
> {
    match string_in(asset_of(ad)) {
        None => plainly(FetchProblem::SpotlightNoUrl),
        Some(image_url) => Ok(
            FetchView {
                image_url,
                title: or_text(filled(string_in(member(Some(ad), "title"@))), untitled),
                copyright: string_in(member(Some(ad), "copyright"@)),
                date: None,
                extra: entry_for("description"@, string_in(member(Some(ad), "description"@)))
                    + entry_for("dedup-id"@, filled(string_in(member(Some(ad), "entityId"@)))),
            },
        ),
    }
}

/// What the decoded item of a reply yields.
pub open spec fn item_result(inner: Result<JsonView, Seq<char>>, untitled: Seq<char>) -> Result<
    FetchView,
    (FetchProblem, Seq<char>),
> {
    match inner {
        Err(reason) => Err((FetchProblem::SpotlightBadItem, reason)),
        Ok(doc) => match member(Some(doc), "ad"@) {
            None => plainly(FetchProblem::SpotlightNoAd),
            Some(ad) => ad_result(ad, untitled),
        },
    }
}

/// What a reply yields. Its first item is a JSON document in a string.
pub open spec fn spotlight_result(json: JsonView, untitled: Seq<char>) -> Result<
    FetchView,
    (FetchProblem, Seq<char>),
> {
    match string_in(member(first_in(items_of(json)), "item"@)) {
        None => Err((FetchProblem::SpotlightNoItems, api_message(json))),
        Some(item) => item_result(json_in_text(item), untitled),
    }
}

/// What the decoded item of a reply yields; `untitled` names an image without
/// a title.
pub fn parse_item_titled(inner: &Json, untitled: &str) -> (r: Result<FetchResult, FetchError>)
    ensures
        outcome(r) == item_result(Ok(inner@), untitled@),
{
    let ad = match field(Some(inner), "ad") {
        Some(ad) => ad,
        None => {
            return Err(failed(FetchProblem::SpotlightNoAd));
        },
    };
    let asset = match field(field(Some(ad), "landscapeImage"), "asset") {
        Some(v) => Some(v),
        None => match field(field(Some(ad), "portraitImage"), "asset") {
            Some(v) => Some(v),
            None => field(field(Some(ad), "video"), "PreviewImagePath"),
        },
    };
    let image_url = match string(asset) {
        Some(u) => u,
        None => {
            return Err(failed(FetchProblem::SpotlightNoUrl));
        },
    };
    let title = match filled_string(string(field(Some(ad), "title"))) {
        Some(t) => t,
        None => untitled.to_owned(),
    };
    let copyright = string(field(Some(ad), "copyright"));
    let mut extra = TextMap::new();
    push_entry(&mut extra, "description", string(field(Some(ad), "description")));
    push_entry(&mut extra, "dedup-id", filled_string(string(field(Some(ad), "entityId"))));
    let r = FetchResult { image_url, title, copyright, date: None, extra };
    assert(r@.extra =~= (item_result(Ok(inner@), untitled@)->Ok_0).extra);
    Ok(r)
}

/// What a reply yields; `untitled` names an image without a title.
pub fn parse_spotlight_titled(json: &Json, untitled: &str) -> (r: Result<FetchResult, FetchError>)
    ensures
        outcome(r) == spotlight_result(json@, untitled@),
{
    match string(field(first(field(field(Some(json), "batchrsp"), "items")), "item")) {
        None => {
            let detail = match string(
                field(first(field(field(Some(json), "batchrsp"), "errors")), "msg"),
            ) {
                Some(m) => m,
                None => "no items in response".to_owned(),
            };
            Err(FetchError { problem: FetchProblem::SpotlightNoItems, detail })
        },
        Some(item) => match parse(item.as_str()) {
            Err(reason) => Err(FetchError { problem: FetchProblem::SpotlightBadItem, detail: reason }),
            Ok(inner) => parse_item_titled(&inner, untitled),
        },
    }
}

/// What a reply yields. An image without a title gets the translated name of
/// the source.
pub fn parse_spotlight(json: &Json) -> (r: Result<FetchResult, FetchError>)
    ensures
        exists|untitled: Seq<char>| outcome(r) == #[trigger] spotlight_result(json@, untitled),
{
    proof {
        reveal_strlit("Spotlight");
    }
    parse_spotlight_titled(json, gettext("Spotlight").as_str())
}

/// What a reply body yields.
pub open spec fn spotlight_reply(doc: Result<JsonView, Seq<char>>, date: Date, untitled: Seq<char>) -> Result<
    FetchView,
    (FetchProblem, Seq<char>),
> {
    match doc {
        Err(reason) => unreadable("failed to parse Spotlight response"@, reason),
        Ok(json) => dated(spotlight_result(json, untitled), date),
    }
}

/// What to do with the first reply.
pub enum SpotlightStep {
    /// The fetch is over.
    Done(Result<FetchResult, FetchError>),
    /// Ask again, with this request, and read that reply.
    Retry(String),
}

impl SpotlightSource {
    /// The request for the current image. `system` is the system locale.
    pub fn request_url(&self, settings: &SourceSettings, system: &str) -> (r: String)
        ensures
            r@ == selection_url(country_for(settings, system@), locale_for(settings, system@)),
    {
        let country = self.country(settings, system);
        let value = settings.get_str("locale", "auto");
        let locale = if same(value.as_str(), "") || same(value.as_str(), "auto") {
            with_region(system)
        } else {
            value
        };
        url_for(country.as_str(), locale.as_str())
    }

    /// The country that is asked for.
    pub fn country(&self, settings: &SourceSettings, system: &str) -> (r: String)
        ensures
            r@ == country_for(settings, system@),
    {
        let value = settings.get_str("country", "auto");
        if same(value.as_str(), "") || same(value.as_str(), "auto") {
            match system_region(system) {
                Some(region) => uppered(region.as_str()),
                None => locale_fallback(system).1.to_owned(),
            }
        } else {
            value
        }
    }

    /// What a reply yields; the requested day is the day of the image.
    pub fn read_reply(&self, body: &[u8], date: Date) -> (r: Result<FetchResult, FetchError>)
        ensures
            exists|untitled: Seq<char>|
                outcome(r) == #[trigger] spotlight_reply(json_in_bytes(body@), date, untitled),
    {
        match parse_bytes(body) {
            Err(reason) => {
                let r: Result<FetchResult, FetchError> = Err(
                    failed_reading("failed to parse Spotlight response", reason.as_str()),
                );
                assert(outcome(r) == spotlight_reply(json_in_bytes(body@), date, Seq::empty()));
                r
            },
            Ok(json) => {
                let parsed = parse_spotlight(&json);
                let ghost t = choose|t: Seq<char>|
                    outcome(parsed) == #[trigger] spotlight_result(json@, t);
                let r = match parsed {
                    Ok(f) => Ok(
                        FetchResult {
                            image_url: f.image_url,
                            title: f.title,
                            copyright: f.copyright,
                            date: Some(date),
                            extra: f.extra,
                        },
                    ),
                    Err(e) => Err(e),
                };
                assert(outcome(r) == spotlight_reply(json_in_bytes(body@), date, t));
                r
            },
        }
    }

    /// What to do with the reply to the first request: a reply without items
    /// for another than the fallback country is repeated for that country.
    pub fn first_reply(
        &self,
        settings: &SourceSettings,
        system: &str,
        body: &[u8],
        date: Date,
    ) -> (r: SpotlightStep)
        ensures
            match r {
                SpotlightStep::Retry(url) => {
                    &&& json_in_bytes(body@) is Ok
                    &&& !covers(json_in_bytes(body@)->Ok_0)
                    &&& country_for(settings, system@) != FALLBACK_COUNTRY@
                    &&& url@ == selection_url(FALLBACK_COUNTRY@, "en-US"@)
                },
                SpotlightStep::Done(result) => {
                    &&& json_in_bytes(body@) is Err || covers(json_in_bytes(body@)->Ok_0)
                        || country_for(settings, system@) == FALLBACK_COUNTRY@
                    &&& exists|untitled: Seq<char>|
                        outcome(result) == #[trigger] spotlight_reply(
                            json_in_bytes(body@),
                            date,
                            untitled,
                        )
                },
            },
    {
        let country = self.country(settings, system);
        if let Ok(json) = parse_bytes(body) {
            if !has_items(&json) && !same(country.as_str(), FALLBACK_COUNTRY) {
                return SpotlightStep::Retry(url_for(FALLBACK_COUNTRY, "en-US"));
            }
        }
        SpotlightStep::Done(self.read_reply(body, date))
    }
}

/// The region of the system locale as it is shown, or the fallback country.
pub open spec fn region_text(system: Seq<char>) -> Seq<char> {
    match region_of(system) {
        Some(region) => region,
        None => fallback_of(system).1,
    }
}

fn region_or_fallback(system: &str) -> (r: String)
    ensures
        r@ == region_text(system@),
{
    match system_region(system) {
        Some(region) => region,
        None => locale_fallback(system).1.to_owned(),
    }
}

/// The choices of the setting `country`.
pub open spec fn countries(auto: Seq<char>, system: Seq<char>) -> Seq<(Seq<char>, Seq<char>)> {
    seq![
        ("auto"@, auto_text(auto, region_text(system))),
        ("CN"@, "CN"@),
        ("US"@, "US"@),
        ("JP"@, "JP"@),
        ("GB"@, "GB"@),
        ("DE"@, "DE"@),
        ("FR"@, "FR"@),
        ("AU"@, "AU"@),
        ("CA"@, "CA"@),
    ]
}

fn country_choices(auto: &str, system: &str) -> (r: Vec<(&'static str, String)>)
    ensures
        choice_views(r@) == countries(auto@, system@),
{
    let mut v: Vec<(&'static str, String)> = Vec::new();
    let resolved = region_or_fallback(system);
    push_choice(&mut v, "auto", auto_label(auto, resolved.as_str()).as_str());
    push_choice(&mut v, "CN", "CN");
    push_choice(&mut v, "US", "US");
    push_choice(&mut v, "JP", "JP");
    push_choice(&mut v, "GB", "GB");
    push_choice(&mut v, "DE", "DE");
    push_choice(&mut v, "FR", "FR");
    push_choice(&mut v, "AU", "AU");
    push_choice(&mut v, "CA", "CA");
    assert(choice_views(v@) =~= countries(auto@, system@));
    v
}

/// The choices of the setting `locale`.
pub open spec fn locales(auto: Seq<char>, system: Seq<char>) -> Seq<(Seq<char>, Seq<char>)> {
    seq![
        ("auto"@, auto_text(auto, full_locale(system))),
        ("zh-CN"@, "中文 (简体)"@),
        ("en-US"@, "English (US)"@),
        ("en-GB"@, "English (UK)"@),
        ("ja-JP"@, "日本語"@),
        ("de-DE"@, "Deutsch"@),
        ("fr-FR"@, "Français"@),
    ]
}

fn locale_choices(auto: &str, system: &str) -> (r: Vec<(&'static str, String)>)
    ensures
        choice_views(r@) == locales(auto@, system@),
{
    let mut v: Vec<(&'static str, String)> = Vec::new();
    let resolved = with_region(system);
    push_choice(&mut v, "auto", auto_label(auto, resolved.as_str()).as_str());
    push_choice(&mut v, "zh-CN", "中文 (简体)");
    push_choice(&mut v, "en-US", "English (US)");
    push_choice(&mut v, "en-GB", "English (UK)");
    push_choice(&mut v, "ja-JP", "日本語");
    push_choice(&mut v, "de-DE", "Deutsch");
    push_choice(&mut v, "fr-FR", "Français");
    assert(choice_views(v@) =~= locales(auto@, system@));
    v
}

impl Source for SpotlightSource {
    open spec fn spec_id(&self) -> Seq<char> {
        "spotlight"@
    }

    open spec fn is_daily(&self) -> bool {
        false
    }

    open spec fn english_name(&self) -> Seq<char> {
        "Windows Spotlight"@
    }

    open spec fn translates_name(&self) -> bool {
        true
    }

    open spec fn setting_messages(&self) -> Seq<Seq<char>> {
        seq!["Country"@, "Auto"@, "Locale"@]
    }

    open spec fn settings_for(&self, texts: Seq<Seq<char>>, system: Seq<char>) -> Seq<SettingView> {
        seq![
            SettingView::Choice {
                key: "country"@,
                label: texts[0],
                choices: countries(texts[1], system),
                default: "auto"@,
            },
            SettingView::Choice {
                key: "locale"@,
                label: texts[2],
                choices: locales(texts[1], system),
                default: "auto"@,
            },
        ]
    }

    fn id(&self) -> (r: &'static str) {
        "spotlight"
    }

    fn name(&self) -> (r: (&'static str, bool)) {
        proof {
            reveal_strlit("Windows Spotlight");
        }
        ("Windows Spotlight", true)
    }

    fn display_name(&self) -> (r: String) {
        shown_name(self.name())
    }

    fn messages(&self) -> (r: Vec<&'static str>) {
        proof {
            reveal_strlit("Country");
            reveal_strlit("Auto");
            reveal_strlit("Locale");
        }
        let r: Vec<&'static str> = vec!["Country", "Auto", "Locale"];
        assert(str_texts(r@) =~= self.setting_messages());
        r
    }

    fn settings_in(&self, translations: &Vec<String>, system: &str) -> (r: Vec<SettingSpec>) {
        let mut out: Vec<SettingSpec> = Vec::new();
        push_setting(
            &mut out,
            SettingSpec::Choice {
                key: "country",
                label: translations[0].clone(),
                choices: country_choices(translations[1].as_str(), system),
                default: "auto",
            },
        );
        push_setting(
            &mut out,
            SettingSpec::Choice {
                key: "locale",
                label: translations[2].clone(),
                choices: locale_choices(translations[1].as_str(), system),
                default: "auto",
            },
        );
        assert(setting_views(out@) =~= self.settings_for(texts(translations@), system@));
        out
    }

    fn daily(&self) -> (r: bool) {
        false
    }
}

} // verus!
