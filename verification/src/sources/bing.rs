//! Bing's daily wallpaper, <https://www.bing.com/HPImageArchive.aspx>.

use vstd::prelude::*;

use crate::date::{day_in_text, parse_day};
use crate::i18n::gettext;
use crate::json::{
    field, filled, filled_string, first, first_in, json_in_bytes, member, parse_bytes, string,
    string_in, Json, JsonView,
};
use crate::source::{
    auto_label, auto_text, choice_views, failed, failed_reading, or_text, outcome, plainly,
    push_choice, push_setting, setting_views, shown_name, str_texts, unreadable, FetchError,
    FetchProblem, FetchResult, FetchView, SettingSpec, SettingView, Source, SourceSettings, TextMap,
};
use crate::sources::spotlight::{full_locale, is_auto, with_region};
use crate::text::{
    char_from, chars, concat, decimal_int, decimal_of_int, find_char, same, slice, texts, trim,
    trim_end, trim_start, trimmed, trimmed_end, trimmed_start,
};

verus! {

pub const API_BASE: &'static str = "https://www.bing.com/HPImageArchive.aspx";

pub const IMAGE_BASE: &'static str = "https://www.bing.com";

pub struct BingSource;

/// The market of a setting; the automatic one follows the system locale.
pub open spec fn market_of(value: Seq<char>, system: Seq<char>) -> Seq<char> {
    if is_auto(value) {
        full_locale(system)
    } else {
        value
    }
}

/// The market of a setting; the automatic one follows the system locale.
pub fn resolve_mkt(value: &str, system: &str) -> (r: String)
    ensures
        r@ == market_of(value@, system@),
{
    if same(value, "") || same(value, "auto") {
        with_region(system)
    } else {
        value.to_owned()
    }
}

/// A caption with the credit in parentheses moved to a line of its own.
pub open spec fn split_credit(raw: Seq<char>) -> Seq<char> {
    let open = find_char(raw, '(', 0);
    let close = find_char(raw, ')', open);
    if open < raw.len() && close < raw.len() {
        let head = trim_end(raw.take(open));
        let inner = trim(raw.subrange(open + 1, close));
        let tail = trim_start(raw.skip(close + 1));
        if tail.len() == 0 {
            head + seq!['\n'] + inner
        } else {
            head + seq!['\n'] + inner + seq![' '] + tail
        }
    } else {
        raw
    }
}

/// Moves the credit in parentheses to a line of its own; a caption without
/// parentheses is unchanged.
pub fn normalize_copyright(raw: &str) -> (r: String)
    ensures
        r@ == split_credit(raw@),
{
    let v = chars(raw);
    let open = char_from(&v, '(', 0);
    if open == v.len() {
        return raw.to_owned();
    }
    let close = char_from(&v, ')', open);
    if close == v.len() {
        return raw.to_owned();
    }
    assert(close != open);
    let mut out = trimmed_end(slice(&v, 0, open).as_str());
    out.push('\n');
    let inner = slice(&v, open + 1, close);
    out.append(trimmed(inner.as_str()).as_str());
    let rest = slice(&v, close + 1, v.len());
    assert(v@.subrange(0, open as int) =~= raw@.take(open as int));
    assert(rest@ =~= raw@.skip(close + 1));
    let tail = trimmed_start(rest.as_str());
    if !tail.as_str().is_empty() {
        out.push(' ');
        out.append(tail.as_str());
    }
    assert(out@ =~= split_credit(raw@));
    out
}

/// The image of an archive entry: in full resolution, or as listed.
pub open spec fn image_of(img: JsonView, resolution: Seq<char>) -> Result<
    Seq<char>,
    FetchProblem,
> {
    if resolution == "UHD"@ {
        match string_in(member(Some(img), "urlbase"@)) {
            Some(base) => Ok(IMAGE_BASE@ + base + "_UHD.jpg"@),
            None => Err(FetchProblem::BingNoUrlbase),
        }
    } else {
        match string_in(member(Some(img), "url"@)) {
            Some(rel) => Ok(IMAGE_BASE@ + rel),
            None => Err(FetchProblem::BingNoUrl),
        }
    }
}

/// What a reply yields: its first image.
pub open spec fn bing_result(json: JsonView, resolution: Seq<char>, untitled: Seq<char>) -> Result<
    FetchView,
    (FetchProblem, Seq<char>),
> {
    match first_in(member(Some(json), "images"@)) {
        None => plainly(FetchProblem::BingNoImages),
        Some(img) => match image_of(img, resolution) {
            Err(problem) => plainly(problem),
            Ok(image_url) => Ok(
                FetchView {
                    image_url,
                    title: or_text(filled(string_in(member(Some(img), "title"@))), untitled),
                    copyright: match string_in(member(Some(img), "copyright"@)) {
                        Some(c) => Some(split_credit(c)),
                        None => None,
                    },
                    date: match string_in(member(Some(img), "startdate"@)) {
                        Some(d) => day_in_text(d, "%Y%m%d"@),
                        None => None,
                    },
                    extra: Seq::empty(),
                },
            ),
        },
    }
}

/// What a reply yields; `untitled` names an image without a title.
pub fn parse_bing_titled(json: &Json, resolution: &str, untitled: &str) -> (r: Result<
    FetchResult,
    FetchError,
>)
    ensures
        outcome(r) == bing_result(json@, resolution@, untitled@),
{
    let img = match first(field(Some(json), "images")) {
        Some(img) => img,
        None => {
            return Err(failed(FetchProblem::BingNoImages));
        },
    };
    let image_url = if same(resolution, "UHD") {
        match string(field(Some(img), "urlbase")) {
            Some(base) => concat(concat(IMAGE_BASE, base.as_str()).as_str(), "_UHD.jpg"),
            None => {
                return Err(failed(FetchProblem::BingNoUrlbase));
            },
        }
    } else {
        match string(field(Some(img), "url")) {
            Some(rel) => concat(IMAGE_BASE, rel.as_str()),
            None => {
                return Err(failed(FetchProblem::BingNoUrl));
            },
        }
    };
    let title = match filled_string(string(field(Some(img), "title"))) {
        Some(t) => t,
        None => untitled.to_owned(),
    };
    let copyright = match string(field(Some(img), "copyright")) {
        Some(c) => Some(normalize_copyright(c.as_str())),
        None => None,
    };
    let date = match string(field(Some(img), "startdate")) {
        Some(d) => parse_day(d.as_str(), "%Y%m%d"),
        None => None,
    };
    Ok(FetchResult { image_url, title, copyright, date, extra: TextMap::new() })
}

/// What a reply yields. An image without a title gets the translated name of
/// the source.
pub fn parse_bing(json: &Json, resolution: &str) -> (r: Result<FetchResult, FetchError>)
    ensures
        exists|untitled: Seq<char>|
            outcome(r) == #[trigger] bing_result(json@, resolution@, untitled),
{
    proof {
        reveal_strlit("Bing");
    }
    parse_bing_titled(json, resolution, gettext("Bing").as_str())
}

/// The number of days back that the request asks for.
pub open spec fn index_of(settings: &SourceSettings) -> i64 {
    let i = settings.i64_at("index"@, 0);
    if i < 0 {
        0
    } else if i > 7 {
        7
    } else {
        i
    }
}

pub open spec fn archive_url(settings: &SourceSettings, system: Seq<char>) -> Seq<char> {
    API_BASE@ + "?format=js&idx="@ + decimal_int(index_of(settings) as int) + "&n=1&mkt="@
        + market_of(settings.str_at("mkt"@, "auto"@), system)
}

/// What a reply body yields.
pub open spec fn bing_reply(
    doc: Result<JsonView, Seq<char>>,
    resolution: Seq<char>,
    untitled: Seq<char>,
) -> Result<FetchView, (FetchProblem, Seq<char>)> {
    match doc {
        Err(reason) => unreadable("failed to parse Bing response"@, reason),
        Ok(json) => bing_result(json, resolution, untitled),
    }
}

impl BingSource {
    /// The request for the image. `system` is the system locale.
    pub fn request_url(&self, settings: &SourceSettings, system: &str) -> (r: String)
        ensures
            r@ == archive_url(settings, system@),
    {
        let i = settings.get_i64("index", 0);
        let index: i64 = if i < 0 {
            0
        } else if i > 7 {
            7
        } else {
            i
        };
        let mut url = API_BASE.to_owned();
        url.append("?format=js&idx=");
        url.append(decimal_of_int(index).as_str());
        url.append("&n=1&mkt=");
        url.append(resolve_mkt(settings.get_str("mkt", "auto").as_str(), system).as_str());
        url
    }

    /// What the reply to the request yields.
    pub fn read_reply(&self, body: &[u8], settings: &SourceSettings) -> (r: Result<
        FetchResult,
        FetchError,
    >)
        ensures
            exists|untitled: Seq<char>|
                outcome(r) == #[trigger] bing_reply(
                    json_in_bytes(body@),
                    settings.str_at("resolution"@, "UHD"@),
                    untitled,
                ),
    {
        let resolution = settings.get_str("resolution", "UHD");
        match parse_bytes(body) {
            Err(reason) => {
                let r: Result<FetchResult, FetchError> = Err(
                    failed_reading("failed to parse Bing response", reason.as_str()),
                );
                assert(outcome(r) == bing_reply(
                    json_in_bytes(body@),
                    resolution@,
                    Seq::empty(),
                ));
                r
            },
            Ok(json) => {
                let r = parse_bing(&json, resolution.as_str());
                proof {
                    let t = choose|t: Seq<char>|
                        outcome(r) == #[trigger] bing_result(json@, resolution@, t);
                    assert(outcome(r) == bing_reply(json_in_bytes(body@), resolution@, t));
                }
                r
            },
        }
    }
}

/// The choices of the setting `mkt`.
pub open spec fn markets(auto: Seq<char>, system: Seq<char>) -> Seq<(Seq<char>, Seq<char>)> {
    seq![
        ("auto"@, auto_text(auto, market_of("auto"@, system))),
        ("zh-CN"@, "中文 (中国)"@),
        ("zh-HK"@, "中文 (香港)"@),
        ("en-US"@, "English (US)"@),
        ("en-GB"@, "English (UK)"@),
        ("ja-JP"@, "日本語"@),
        ("ko-KR"@, "한국어"@),
        ("de-DE"@, "Deutsch"@),
        ("fr-FR"@, "Français"@),
        ("es-ES"@, "Español"@),
        ("it-IT"@, "Italia"@),
        ("ru-RU"@, "Русский"@),
    ]
}

fn market_choices(auto: &str, system: &str) -> (r: Vec<(&'static str, String)>)
    ensures
        choice_views(r@) == markets(auto@, system@),
{
    let mut v: Vec<(&'static str, String)> = Vec::new();
    let resolved = resolve_mkt("auto", system);
    push_choice(&mut v, "auto", auto_label(auto, resolved.as_str()).as_str());
    push_choice(&mut v, "zh-CN", "中文 (中国)");
    push_choice(&mut v, "zh-HK", "中文 (香港)");
    push_choice(&mut v, "en-US", "English (US)");
    push_choice(&mut v, "en-GB", "English (UK)");
    push_choice(&mut v, "ja-JP", "日本語");
    push_choice(&mut v, "ko-KR", "한국어");
    push_choice(&mut v, "de-DE", "Deutsch");
    push_choice(&mut v, "fr-FR", "Français");
    push_choice(&mut v, "es-ES", "Español");
    push_choice(&mut v, "it-IT", "Italia");
    push_choice(&mut v, "ru-RU", "Русский");
    assert(choice_views(v@) =~= markets(auto@, system@));
    v
}

/// The choices of the setting `resolution`.
pub open spec fn resolutions() -> Seq<(Seq<char>, Seq<char>)> {
    seq![
        ("UHD"@, "UHD (2160p)"@),
        ("1920x1080"@, "FHD (1080p)"@),
        ("1366x768"@, "HD (768p)"@),
    ]
}

fn resolution_choices() -> (r: Vec<(&'static str, String)>)
    ensures
        choice_views(r@) == resolutions(),
{
    let mut v: Vec<(&'static str, String)> = Vec::new();
    push_choice(&mut v, "UHD", "UHD (2160p)");
    push_choice(&mut v, "1920x1080", "FHD (1080p)");
    push_choice(&mut v, "1366x768", "HD (768p)");
    assert(choice_views(v@) =~= resolutions());
    v
}

impl Source for BingSource {
    open spec fn spec_id(&self) -> Seq<char> {
        "bing"@
    }

    open spec fn is_daily(&self) -> bool {
        true
    }

    open spec fn english_name(&self) -> Seq<char> {
        "Bing"@
    }

    open spec fn translates_name(&self) -> bool {
        true
    }

    open spec fn setting_messages(&self) -> Seq<Seq<char>> {
        seq!["Region"@, "Auto"@, "Resolution"@, "Include history"@]
    }

    open spec fn settings_for(&self, texts: Seq<Seq<char>>, system: Seq<char>) -> Seq<SettingView> {
        seq![
            SettingView::Choice {
                key: "mkt"@,
                label: texts[0],
                choices: markets(texts[1], system),
                default: "auto"@,
            },
            SettingView::Choice {
                key: "resolution"@,
                label: texts[2],
                choices: resolutions(),
                default: "UHD"@,
            },
            SettingView::Int { key: "index"@, label: texts[3], default: 0, min: 0, max: 7 },
        ]
    }

    fn id(&self) -> (r: &'static str) {
        "bing"
    }

    fn name(&self) -> (r: (&'static str, bool)) {
        proof {
            reveal_strlit("Bing");
        }
        ("Bing", true)
    }

    fn display_name(&self) -> (r: String) {
        shown_name(self.name())
    }

    fn messages(&self) -> (r: Vec<&'static str>) {
        proof {
            reveal_strlit("Region");
            reveal_strlit("Auto");
            reveal_strlit("Resolution");
            reveal_strlit("Include history");
        }
        let r: Vec<&'static str> = vec!["Region", "Auto", "Resolution", "Include history"];
        assert(str_texts(r@) =~= self.setting_messages());
        r
    }

    fn settings_in(&self, translations: &Vec<String>, system: &str) -> (r: Vec<SettingSpec>) {
        let mut out: Vec<SettingSpec> = Vec::new();
        push_setting(
            &mut out,
            SettingSpec::Choice {
                key: "mkt",
                label: translations[0].clone(),
                choices: market_choices(translations[1].as_str(), system),
                default: "auto",
            },
        );
        push_setting(
            &mut out,
            SettingSpec::Choice {
                key: "resolution",
                label: translations[2].clone(),
                choices: resolution_choices(),
                default: "UHD",
            },
        );
        push_setting(
            &mut out,
            SettingSpec::Int {
                key: "index",
                label: translations[3].clone(),
                default: 0,
                min: 0,
                max: 7,
            },
        );
        assert(setting_views(out@) =~= self.settings_for(texts(translations@), system@));
        out
    }

    fn daily(&self) -> (r: bool) {
        true
    }
}

} // verus!
