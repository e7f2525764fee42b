//! Lorem Picsum: photographs from Unsplash, <https://picsum.photos>.
//!
//! Every fetch picks a random page of the catalogue and a random entry of it.

use vstd::prelude::*;

use crate::chance::random_between;
use crate::json::{
    field, filled, filled_string, json_in_bytes, list, list_in, member, parse_bytes, string,
    string_in, views, Json, JsonView,
};
use crate::source::{
    entry_for, failed, failed_reading, outcome, plainly, push_entry, push_setting, setting_views,
    shown_name, str_texts, FetchError, FetchProblem, FetchResult, FetchView, SettingSpec,
    SettingView, Source, SourceSettings, TextMap,
};
use crate::text::{concat, decimal, decimal_int, decimal_of, decimal_of_int, texts};

verus! {

/// The catalogue, in pages.
pub const LIST_BASE: &'static str = "https://picsum.photos/v2/list";

/// The pages that are drawn from.
pub const MAX_PAGE: usize = 10;

/// The size where none is configured.
pub const FALLBACK_W: i64 = 1920;

pub const FALLBACK_H: i64 = 1080;

pub struct PicsumSource;

/// The size of the image: what is configured, or the fallback where that is
/// not positive.
pub open spec fn size_of(settings: &SourceSettings) -> (i64, i64) {
    let w = settings.i64_at("width"@, 0);
    let h = settings.i64_at("height"@, 0);
    (
        if w > 0 {
            w
        } else {
            FALLBACK_W
        },
        if h > 0 {
            h
        } else {
            FALLBACK_H
        },
    )
}

/// The size of the image that is asked for.
pub fn resolve_size(settings: &SourceSettings) -> (r: (i64, i64))
    ensures
        r == size_of(settings),
{
    let w = settings.get_i64("width", 0);
    let h = settings.get_i64("height", 0);
    let width: i64 = if w > 0 {
        w
    } else {
        FALLBACK_W
    };
    let height: i64 = if h > 0 {
        h
    } else {
        FALLBACK_H
    };
    (width, height)
}

pub open spec fn effects_of(grayscale: bool, blur: bool) -> Seq<char> {
    match (grayscale, blur) {
        (true, true) => "?grayscale&blur"@,
        (true, false) => "?grayscale"@,
        (false, true) => "?blur"@,
        (false, false) => ""@,
    }
}

/// The query string of the effects.
pub fn effects_query(grayscale: bool, blur: bool) -> (r: String)
    ensures
        r@ == effects_of(grayscale, blur),
{
    match (grayscale, blur) {
        (true, true) => "?grayscale&blur".to_owned(),
        (true, false) => "?grayscale".to_owned(),
        (false, true) => "?blur".to_owned(),
        (false, false) => "".to_owned(),
    }
}

/// What an entry of the catalogue yields, at a size and with effects.
pub open spec fn picsum_entry(entry: JsonView, w: i64, h: i64, effects: Seq<char>) -> Result<
    FetchView,
    (FetchProblem, Seq<char>),
> {
    match filled(string_in(member(Some(entry), "id"@))) {
        None => plainly(FetchProblem::PicsumNoId),
        Some(id) => Ok(
            FetchView {
                image_url: "https://picsum.photos/id/"@ + id + "/"@ + decimal_int(w as int) + "/"@
                    + decimal_int(h as int) + effects,
                title: id,
                copyright: None,
                date: None,
                extra: entry_for("summary"@, filled(string_in(member(Some(entry), "author"@))))
                    + entry_for("source"@, string_in(member(Some(entry), "url"@))),
            },
        ),
    }
}

/// What an entry of the catalogue yields: its id is the title, its author the
/// summary.
pub fn parse_entry(entry: &Json, w: i64, h: i64, effects: &str) -> (r: Result<
    FetchResult,
    FetchError,
>)
    ensures
        outcome(r) == picsum_entry(entry@, w, h, effects@),
{
    let id = match filled_string(string(field(Some(entry), "id"))) {
        Some(id) => id,
        None => {
            return Err(failed(FetchProblem::PicsumNoId));
        },
    };
    let mut image_url = concat("https://picsum.photos/id/", id.as_str());
    image_url.append("/");
    image_url.append(decimal_of_int(w).as_str());
    image_url.append("/");
    image_url.append(decimal_of_int(h).as_str());
    image_url.append(effects);
    let mut extra = TextMap::new();
    push_entry(&mut extra, "summary", filled_string(string(field(Some(entry), "author"))));
    push_entry(&mut extra, "source", string(field(Some(entry), "url")));
    let r = FetchResult { image_url, title: id, copyright: None, date: None, extra };
    assert(r@.extra =~= (picsum_entry(entry@, w, h, effects@)->Ok_0).extra);
    Ok(r)
}

pub open spec fn page_url(page: int) -> Seq<char> {
    LIST_BASE@ + "?page="@ + decimal(page as nat) + "&limit=100"@
}

/// The entries of a page, or what is wrong with it.
pub open spec fn page_entries(doc: Result<JsonView, Seq<char>>, page: int) -> Result<
    Seq<JsonView>,
    (FetchProblem, Seq<char>),
> {
    match doc {
        Err(reason) => Err(
            (FetchProblem::NotJson, "failed to parse Lorem Picsum list"@ + ": "@ + reason),
        ),
        Ok(json) => match list_in(Some(json)) {
            None => Err((FetchProblem::PicsumNotList, Seq::empty())),
            Some(entries) => if entries.len() == 0 {
                Err((FetchProblem::PicsumEmpty, decimal(page as nat)))
            } else {
                Ok(entries)
            },
        },
    }
}

/// What to do with the first reply.
pub enum PicsumStep {
    /// The fetch is over.
    Done(Result<FetchResult, FetchError>),
    /// Ask again, with this request, for the page of this number.
    Retry(usize, String),
}

/// The page lies beyond the last one: it is an empty list.
pub open spec fn beyond_last(doc: Result<JsonView, Seq<char>>) -> bool {
    doc is Ok && list_in(Some(doc->Ok_0)) is Some && list_in(Some(doc->Ok_0))->0.len() == 0
}

/// `r` is what one of the entries of a page yields, or what is wrong with the
/// page.
pub open spec fn drawn_from(
    doc: Result<JsonView, Seq<char>>,
    page: int,
    settings: &SourceSettings,
    r: Result<FetchResult, FetchError>,
) -> bool {
    match page_entries(doc, page) {
        Err(e) => outcome(r) == Err::<FetchView, (FetchProblem, Seq<char>)>(e),
        Ok(entries) => exists|i: int|
            0 <= i < entries.len() && outcome(r) == picsum_entry(
                #[trigger] entries[i],
                size_of(settings).0,
                size_of(settings).1,
                effects_of(
                    settings.bool_at("grayscale"@, false),
                    settings.bool_at("blur"@, false),
                ),
            ),
    }
}

fn url_of(page: usize) -> (r: String)
    ensures
        r@ == page_url(page as int),
{
    let mut url = concat(LIST_BASE, "?page=");
    url.append(decimal_of(page as u64).as_str());
    url.append("&limit=100");
    url
}

impl PicsumSource {
    /// The page to draw from, picked at random, and the request for it.
    pub fn request_url(&self) -> (r: (usize, String))
        ensures
            1 <= r.0 <= MAX_PAGE,
            r.1@ == page_url(r.0 as int),
    {
        let page = random_between(1, MAX_PAGE + 1);
        (page, url_of(page))
    }

    /// What a page yields: one of its entries, picked at random. An empty page
    /// is reported with its number.
    pub fn read_reply(&self, body: &[u8], settings: &SourceSettings, page: usize) -> (r: Result<
        FetchResult,
        FetchError,
    >)
        ensures
            drawn_from(json_in_bytes(body@), page as int, settings, r),
    {
        let (w, h) = resolve_size(settings);
        let effects = effects_query(
            settings.get_bool("grayscale", false),
            settings.get_bool("blur", false),
        );
        let json = match parse_bytes(body) {
            Ok(json) => json,
            Err(reason) => {
                return Err(failed_reading("failed to parse Lorem Picsum list", reason.as_str()));
            },
        };
        let entries = match list(Some(&json)) {
            Some(entries) => entries,
            None => {
                return Err(failed(FetchProblem::PicsumNotList));
            },
        };
        if entries.len() == 0 {
            return Err(
                FetchError {
                    problem: FetchProblem::PicsumEmpty,
                    detail: decimal_of(page as u64),
                },
            );
        }
        let i = random_between(0, entries.len());
        let r = parse_entry(&entries[i], w, h, effects.as_str());
        proof {
            let all = page_entries(json_in_bytes(body@), page as int)->Ok_0;
            assert(all == views(entries@));
            assert(outcome(r) == picsum_entry(all[i as int], w, h, effects@));
        }
        r
    }

    /// What to do with the reply for the page that was drawn: a page beyond the
    /// last is replaced by the first one.
    pub fn first_reply(&self, body: &[u8], settings: &SourceSettings, page: usize) -> (r:
        PicsumStep)
        ensures
            match r {
                PicsumStep::Retry(first, url) => {
                    &&& page != 1 && beyond_last(json_in_bytes(body@))
                    &&& first == 1 && url@ == page_url(1)
                },
                PicsumStep::Done(result) => {
                    &&& page == 1 || !beyond_last(json_in_bytes(body@))
                    &&& drawn_from(json_in_bytes(body@), page as int, settings, result)
                },
            },
    {
        if page != 1 {
            if let Ok(json) = parse_bytes(body) {
                if let Some(entries) = list(Some(&json)) {
                    if entries.len() == 0 {
                        return PicsumStep::Retry(1, url_of(1));
                    }
                }
            }
        }
        PicsumStep::Done(self.read_reply(body, settings, page))
    }
}

impl Source for PicsumSource {
    open spec fn spec_id(&self) -> Seq<char> {
        "picsum"@
    }

    open spec fn is_daily(&self) -> bool {
        false
    }

    open spec fn english_name(&self) -> Seq<char> {
        "Lorem Picsum"@
    }

    open spec fn translates_name(&self) -> bool {
        false
    }

    open spec fn setting_messages(&self) -> Seq<Seq<char>> {
        seq!["Width (0 = auto)"@, "Height (0 = auto)"@, "Grayscale"@, "Blur"@]
    }

    open spec fn settings_for(&self, texts: Seq<Seq<char>>, system: Seq<char>) -> Seq<SettingView> {
        seq![
            SettingView::Int { key: "width"@, label: texts[0], default: 0, min: 0, max: 7680 },
            SettingView::Int { key: "height"@, label: texts[1], default: 0, min: 0, max: 4320 },
            SettingView::Bool { key: "grayscale"@, label: texts[2], default: false },
            SettingView::Bool { key: "blur"@, label: texts[3], default: false },
        ]
    }

    fn id(&self) -> (r: &'static str) {
        "picsum"
    }

    fn name(&self) -> (r: (&'static str, bool)) {
        proof {
            reveal_strlit("Lorem Picsum");
        }
        ("Lorem Picsum", false)
    }

    fn display_name(&self) -> (r: String) {
        shown_name(self.name())
    }

    fn messages(&self) -> (r: Vec<&'static str>) {
        proof {
            reveal_strlit("Width (0 = auto)");
            reveal_strlit("Height (0 = auto)");
            reveal_strlit("Grayscale");
            reveal_strlit("Blur");
        }
        let r: Vec<&'static str> = vec!["Width (0 = auto)", "Height (0 = auto)", "Grayscale", "Blur"];
        assert(str_texts(r@) =~= self.setting_messages());
        r
    }

    fn settings_in(&self, translations: &Vec<String>, system: &str) -> (r: Vec<SettingSpec>) {
        let mut out: Vec<SettingSpec> = Vec::new();
        push_setting(
            &mut out,
            SettingSpec::Int {
                key: "width",
                label: translations[0].clone(),
                default: 0,
                min: 0,
                max: 7680,
            },
        );
        push_setting(
            &mut out,
            SettingSpec::Int {
                key: "height",
                label: translations[1].clone(),
                default: 0,
                min: 0,
                max: 4320,
            },
        );
        push_setting(
            &mut out,
            SettingSpec::Bool {
                key: "grayscale",
                label: translations[2].clone(),
                default: false,
            },
        );
        push_setting(
            &mut out,
            SettingSpec::Bool {
                key: "blur",
                label: translations[3].clone(),
                default: false,
            },
        );
        assert(setting_views(out@) =~= self.settings_for(texts(translations@), system@));
        out
    }

    fn daily(&self) -> (r: bool) {
        false
    }
}

} // verus!
