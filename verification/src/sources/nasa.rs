//! NASA's Astronomy Picture of the Day, <https://api.nasa.gov/planetary/apod>.

use vstd::prelude::*;

use crate::date::{day_in_text, iso, parse_day, Date};
use crate::i18n::gettext;
use crate::json::{
    field, filled, filled_string, json_in_bytes, member, parse_bytes, string, string_in, Json,
    JsonView,
};
use crate::source::{
    entry_for, failed, failed_reading, or_text, outcome, plainly, push_entry, push_setting,
    setting_views, shown_name, str_texts, unreadable, FetchError, FetchProblem, FetchResult,
    FetchView, SettingSpec, SettingView, Source, SourceSettings, TextMap,
};
use crate::text::{concat, same, texts};

verus! {

pub const API_URL: &'static str = "https://api.nasa.gov/planetary/apod";

pub struct NasaApodSource;

/// The day that a reply names.
pub open spec fn day_of(json: JsonView) -> Option<Date> {
    match string_in(member(Some(json), "date"@)) {
        Some(d) => day_in_text(d, "%Y-%m-%d"@),
        None => None,
    }
}

pub open spec fn iso_of(d: Option<Date>) -> Option<Seq<char>> {
    match d {
        Some(d) => Some(iso(d)),
        None => None,
    }
}

/// The image, in high definition where that is asked for and there is one.
pub open spec fn image_of(json: JsonView, hd: bool) -> Option<Seq<char>> {
    let plain = string_in(member(Some(json), "url"@));
    if hd {
        match string_in(member(Some(json), "hdurl"@)) {
            Some(u) => Some(u),
            None => plain,
        }
    } else {
        plain
    }
}

/// What a reply yields; a day whose entry is no image yields an error.
pub open spec fn apod_result(json: JsonView, hd: bool, untitled: Seq<char>) -> Result<
    FetchView,
    (FetchProblem, Seq<char>),
> {
    let media = or_text(string_in(member(Some(json), "media_type"@)), "image"@);
    if media != "image"@ {
        Err((FetchProblem::ApodNotImage, media))
    } else {
        match image_of(json, hd) {
            None => plainly(FetchProblem::ApodNoUrl),
            Some(image_url) => Ok(
                FetchView {
                    image_url,
                    title: or_text(filled(string_in(member(Some(json), "title"@))), untitled),
                    copyright: string_in(member(Some(json), "copyright"@)),
                    date: day_of(json),
                    extra: entry_for("summary"@, string_in(member(Some(json), "explanation"@)))
                        + entry_for("date"@, iso_of(day_of(json))),
                },
            ),
        }
    }
}

/// What a reply yields; `untitled` names a picture without a title.
pub fn parse_apod_titled(json: &Json, hd: bool, untitled: &str) -> (r: Result<
    FetchResult,
    FetchError,
>)
    ensures
        outcome(r) == apod_result(json@, hd, untitled@),
{
    if let Some(media) = string(field(Some(json), "media_type")) {
        if !same(media.as_str(), "image") {
            return Err(FetchError { problem: FetchProblem::ApodNotImage, detail: media });
        }
    }
    let plain = string(field(Some(json), "url"));
    let image = if hd {
        match string(field(Some(json), "hdurl")) {
            Some(u) => Some(u),
            None => plain,
        }
    } else {
        plain
    };
    let image_url = match image {
        Some(u) => u,
        None => {
            return Err(failed(FetchProblem::ApodNoUrl));
        },
    };
    let title = match filled_string(string(field(Some(json), "title"))) {
        Some(t) => t,
        None => untitled.to_owned(),
    };
    let copyright = string(field(Some(json), "copyright"));
    let mut extra = TextMap::new();
    push_entry(&mut extra, "summary", string(field(Some(json), "explanation")));
    let date = match string(field(Some(json), "date")) {
        Some(d) => parse_day(d.as_str(), "%Y-%m-%d"),
        None => None,
    };
    let day_text = match &date {
        Some(d) => Some(d.to_iso()),
        None => None,
    };
    push_entry(&mut extra, "date", day_text);
    let r = FetchResult { image_url, title, copyright, date, extra };
    assert(r@.extra =~= (apod_result(json@, hd, untitled@)->Ok_0).extra);
    Ok(r)
}

/// What a reply yields. A picture without a title gets the translated name of
/// the source.
pub fn parse_apod(json: &Json, hd: bool) -> (r: Result<FetchResult, FetchError>)
    ensures
        exists|untitled: Seq<char>| outcome(r) == #[trigger] apod_result(json@, hd, untitled),
{
    proof {
        reveal_strlit("NASA");
    }
    parse_apod_titled(json, hd, gettext("NASA").as_str())
}

pub open spec fn apod_url(settings: &SourceSettings) -> Seq<char> {
    API_URL@ + "?api_key="@ + settings.str_at("api_key"@, "DEMO_KEY"@) + (if settings.bool_at(
        "hd"@,
        true,
    ) {
        "&hd=true"@
    } else {
        "&hd=false"@
    })
}

/// What a reply body yields.
pub open spec fn apod_reply(doc: Result<JsonView, Seq<char>>, hd: bool, untitled: Seq<char>) -> Result<
    FetchView,
    (FetchProblem, Seq<char>),
> {
    match doc {
        Err(reason) => unreadable("failed to parse NASA response"@, reason),
        Ok(json) => apod_result(json, hd, untitled),
    }
}

impl NasaApodSource {
    /// The request for the picture.
    pub fn request_url(&self, settings: &SourceSettings) -> (r: String)
        ensures
            r@ == apod_url(settings),
    {
        let mut url = concat(API_URL, "?api_key=");
        url.append(settings.get_str("api_key", "DEMO_KEY").as_str());
        url.append(
            if settings.get_bool("hd", true) {
                "&hd=true"
            } else {
                "&hd=false"
            },
        );
        url
    }

    /// What the reply to the request yields.
    pub fn read_reply(&self, body: &[u8], settings: &SourceSettings) -> (r: Result<
        FetchResult,
        FetchError,
    >)
        ensures
            exists|untitled: Seq<char>|
                outcome(r) == #[trigger] apod_reply(
                    json_in_bytes(body@),
                    settings.bool_at("hd"@, true),
                    untitled,
                ),
    {
        let hd = settings.get_bool("hd", true);
        match parse_bytes(body) {
            Err(reason) => {
                let r: Result<FetchResult, FetchError> = Err(
                    failed_reading("failed to parse NASA response", reason.as_str()),
                );
                assert(outcome(r) == apod_reply(json_in_bytes(body@), hd, Seq::empty()));
                r
            },
            Ok(json) => {
                let r = parse_apod(&json, hd);
                proof {
                    let t = choose|t: Seq<char>|
                        outcome(r) == #[trigger] apod_result(json@, hd, t);
                    assert(outcome(r) == apod_reply(json_in_bytes(body@), hd, t));
                }
                r
            },
        }
    }
}

impl Source for NasaApodSource {
    open spec fn spec_id(&self) -> Seq<char> {
        "nasa"@
    }

    open spec fn is_daily(&self) -> bool {
        true
    }

    open spec fn english_name(&self) -> Seq<char> {
        "NASA"@
    }

    open spec fn translates_name(&self) -> bool {
        true
    }

    open spec fn setting_messages(&self) -> Seq<Seq<char>> {
        seq!["API key (optional)"@, "Use high-definition image (hdurl)"@]
    }

    open spec fn settings_for(&self, texts: Seq<Seq<char>>, system: Seq<char>) -> Seq<SettingView> {
        seq![
            SettingView::String { key: "api_key"@, label: texts[0], default: "DEMO_KEY"@ },
            SettingView::Bool { key: "hd"@, label: texts[1], default: true },
        ]
    }

    fn id(&self) -> (r: &'static str) {
        "nasa"
    }

    fn name(&self) -> (r: (&'static str, bool)) {
        proof {
            reveal_strlit("NASA");
        }
        ("NASA", true)
    }

    fn display_name(&self) -> (r: String) {
        shown_name(self.name())
    }

    fn messages(&self) -> (r: Vec<&'static str>) {
        proof {
            reveal_strlit("API key (optional)");
            reveal_strlit("Use high-definition image (hdurl)");
        }
        let r: Vec<&'static str> = vec!["API key (optional)", "Use high-definition image (hdurl)"];
        assert(str_texts(r@) =~= self.setting_messages());
        r
    }

    fn settings_in(&self, translations: &Vec<String>, system: &str) -> (r: Vec<SettingSpec>) {
        let mut out: Vec<SettingSpec> = Vec::new();
        push_setting(
            &mut out,
            SettingSpec::String {
                key: "api_key",
                label: translations[0].clone(),
                default: "DEMO_KEY",
            },
        );
        push_setting(
            &mut out,
            SettingSpec::Bool {
                key: "hd",
                label: translations[1].clone(),
                default: true,
            },
        );
        assert(setting_views(out@) =~= self.settings_for(texts(translations@), system@));
        out
    }

    fn daily(&self) -> (r: bool) {
        true
    }
}

} // verus!
