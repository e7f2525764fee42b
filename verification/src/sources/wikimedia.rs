//! Wikimedia Commons Picture of the Day, <https://commons.wikimedia.org>.

use vstd::prelude::*;

use crate::date::{iso, Date};
use crate::i18n::gettext;
use crate::json::{
    field, filled, filled_string, first, first_in, json_in_bytes, member, members_in, parse_bytes,
    string, string_in, Json, JsonMap, JsonView,
};
use crate::source::{
    entry_for, failed, failed_reading, or_text, outcome, plainly, push_entry, push_setting,
    setting_views, shown_name, str_texts, unreadable, FetchError, FetchProblem, FetchResult,
    FetchView, SettingSpec, SettingView, Source, SourceSettings, TextMap,
};
use crate::text::{
    chars, decimal_int, decimal_of_int, is_space, opt_text, replace_all, replaced, space, texts,
    trim, trim_end, trim_start, trimmed,
};

verus! {

pub const API_URL: &'static str = "https://commons.wikimedia.org/w/api.php";

pub struct WikimediaPotdSource;

/// A tag is open at the end of `s`.
pub open spec fn tag_open(s: Seq<char>) -> bool
    decreases s.len(),
{
    if s.len() == 0 {
        false
    } else if s.last() == '<' {
        true
    } else if s.last() == '>' {
        false
    } else {
        tag_open(s.drop_last())
    }
}

/// `s` without its tags.
pub open spec fn untagged(s: Seq<char>) -> Seq<char>
    decreases s.len(),
{
    if s.len() == 0 {
        s
    } else if s.last() == '<' || s.last() == '>' || tag_open(s.drop_last()) {
        untagged(s.drop_last())
    } else {
        untagged(s.drop_last()).push(s.last())
    }
}

/// `s` with the common HTML entities decoded, one kind after the other.
pub open spec fn decoded(s: Seq<char>) -> Seq<char> {
    let s = replace_all(s, "&amp;"@, "&"@);
    let s = replace_all(s, "&lt;"@, "<"@);
    let s = replace_all(s, "&gt;"@, ">"@);
    let s = replace_all(s, "&quot;"@, "\""@);
    let s = replace_all(s, "&#39;"@, "'"@);
    replace_all(s, "&nbsp;"@, " "@)
}

/// `s` with every run of whitespace replaced by one space.
pub open spec fn collapsed(s: Seq<char>) -> Seq<char>
    decreases s.len(),
{
    if s.len() == 0 {
        s
    } else if !is_space(s.last()) {
        collapsed(s.drop_last()).push(s.last())
    } else if s.len() > 1 && is_space(s[s.len() - 2]) {
        collapsed(s.drop_last())
    } else {
        collapsed(s.drop_last()).push(' ')
    }
}

/// The text of an HTML fragment.
pub open spec fn html_text(s: Seq<char>) -> Seq<char> {
    trim(collapsed(decoded(untagged(s))))
}

fn untag(raw: &str) -> (r: String)
    ensures
        r@ == untagged(raw@),
{
    let v = chars(raw);
    let mut out = String::new();
    let mut in_tag = false;
    let mut i: usize = 0;
    assert(out@ =~= untagged(v@.take(0)));
    while i < v.len()
        invariant
            i <= v.len(),
            in_tag == tag_open(v@.take(i as int)),
            out@ == untagged(v@.take(i as int)),
        decreases v.len() - i,
    {
        let c = v[i];
        assert(v@.take(i + 1).drop_last() =~= v@.take(i as int));
        if c == '<' {
            in_tag = true;
        } else if c == '>' {
            in_tag = false;
        } else if !in_tag {
            out.push(c);
        }
        i += 1;
    }
    assert(v@.take(i as int) =~= raw@);
    out
}

fn collapse(text: &str) -> (r: String)
    ensures
        r@ == collapsed(text@),
{
    let v = chars(text);
    let mut out = String::new();
    let mut prev_space = false;
    let mut i: usize = 0;
    assert(out@ =~= collapsed(v@.take(0)));
    while i < v.len()
        invariant
            i <= v.len(),
            prev_space == (i > 0 && is_space(v@[i - 1])),
            out@ == collapsed(v@.take(i as int)),
        decreases v.len() - i,
    {
        assert(v@.take(i + 1).drop_last() =~= v@.take(i as int));
        if space(v[i]) {
            if !prev_space {
                out.push(' ');
            }
            prev_space = true;
        } else {
            out.push(v[i]);
            prev_space = false;
        }
        i += 1;
    }
    assert(v@.take(i as int) =~= text@);
    out
}

/// The text of an HTML fragment: without tags, with the common entities
/// decoded and whitespace collapsed.
pub fn strip_html(raw: &str) -> (r: String)
    ensures
        r@ == html_text(raw@),
{
    proof {
        reveal_strlit("&amp;");
        reveal_strlit("&lt;");
        reveal_strlit("&gt;");
        reveal_strlit("&quot;");
        reveal_strlit("&#39;");
        reveal_strlit("&nbsp;");
    }
    let text = untag(raw);
    let text = replaced(text.as_str(), "&amp;", "&");
    let text = replaced(text.as_str(), "&lt;", "<");
    let text = replaced(text.as_str(), "&gt;", ">");
    let text = replaced(text.as_str(), "&quot;", "\"");
    let text = replaced(text.as_str(), "&#39;", "'");
    let text = replaced(text.as_str(), "&nbsp;", " ");
    trimmed(collapse(text.as_str()).as_str())
}

/// The only whitespace in `s` is the single space, and no two are adjacent.
pub open spec fn single_spaced(s: Seq<char>) -> bool {
    forall|i: int|
        0 <= i < s.len() && is_space(#[trigger] s[i]) ==> s[i] == ' ' && (i > 0 ==> !is_space(
            s[i - 1],
        ))
}

proof fn lemma_collapsed(s: Seq<char>)
    ensures
        single_spaced(collapsed(s)),
        collapsed(s).len() > 0 <==> s.len() > 0,
        s.len() > 0 ==> is_space(collapsed(s).last()) == is_space(s.last()),
    decreases s.len(),
{
    if s.len() > 0 {
        lemma_collapsed(s.drop_last());
        let before = collapsed(s.drop_last());
        assert forall|i: int|
            0 <= i < collapsed(s).len() && is_space(#[trigger] collapsed(s)[i]) implies collapsed(
            s,
        )[i] == ' ' && (i > 0 ==> !is_space(collapsed(s)[i - 1])) by {
            if i < before.len() {
                assert(collapsed(s)[i] == before[i]);
                if i > 0 {
                    assert(collapsed(s)[i - 1] == before[i - 1]);
                }
            } else if i > 0 {
                assert(collapsed(s)[i - 1] == before.last());
                assert(s.drop_last().last() == s[s.len() - 2]);
            }
        }
    }
}

proof fn lemma_trim_start_spacing(s: Seq<char>)
    requires
        single_spaced(s),
    ensures
        single_spaced(trim_start(s)),
    decreases s.len(),
{
    if s.len() > 0 && is_space(s[0]) {
        let t = s.skip(1);
        assert forall|i: int| 0 <= i < t.len() && is_space(#[trigger] t[i]) implies t[i] == ' ' && (
        i > 0 ==> !is_space(t[i - 1])) by {
            assert(t[i] == s[i + 1]);
        }
        lemma_trim_start_spacing(t);
    }
}

proof fn lemma_trim_end_spacing(s: Seq<char>)
    requires
        single_spaced(s),
    ensures
        single_spaced(trim_end(s)),
    decreases s.len(),
{
    if s.len() > 0 && is_space(s.last()) {
        let t = s.drop_last();
        assert forall|i: int| 0 <= i < t.len() && is_space(#[trigger] t[i]) implies t[i] == ' ' && (
        i > 0 ==> !is_space(t[i - 1])) by {
            assert(t[i] == s[i]);
        }
        lemma_trim_end_spacing(t);
    }
}

/// The text of an HTML fragment holds no whitespace but single spaces.
pub proof fn lemma_html_text_spacing(s: Seq<char>)
    ensures
        single_spaced(html_text(s)),
{
    let c = collapsed(decoded(untagged(s)));
    lemma_collapsed(decoded(untagged(s)));
    lemma_trim_start_spacing(c);
    lemma_trim_end_spacing(trim_start(c));
}

/// The raw value of a metadata key.
pub open spec fn raw_meta(info: JsonView, key: Seq<char>) -> Option<Seq<char>> {
    string_in(member(member(member(Some(info), "extmetadata"@), key), "value"@))
}

/// The text of a metadata value; none where nothing is left of it.
pub open spec fn meta_text(info: JsonView, key: Seq<char>) -> Option<Seq<char>> {
    match raw_meta(info, key) {
        Some(raw) => filled(Some(html_text(raw))),
        None => None,
    }
}

pub fn ext_meta(info: &Json, key: &str) -> (r: Option<String>)
    ensures
        opt_text(r) == raw_meta(info@, key@),
{
    string(field(field(field(Some(info), "extmetadata"), key), "value"))
}

/// The text of a metadata value; none where nothing is left of it.
pub fn clean_meta(info: &Json, key: &str) -> (r: Option<String>)
    ensures
        opt_text(r) == meta_text(info@, key@),
{
    match ext_meta(info, key) {
        Some(raw) => filled_string(Some(strip_html(raw.as_str()))),
        None => None,
    }
}

/// The first page at or behind `from` with image information, or their number.
pub open spec fn next_page(pages: Seq<(Seq<char>, JsonView)>, from: int) -> int
    decreases pages.len() - from,
{
    if from >= pages.len() {
        pages.len() as int
    } else if member(Some(pages[from].1), "imageinfo"@) is Some {
        from
    } else {
        next_page(pages, from + 1)
    }
}

/// The title of a picture: its description, its name, the title of its page.
pub open spec fn title_of(info: JsonView, page: JsonView, untitled: Seq<char>) -> Seq<char> {
    match meta_text(info, "ImageDescription"@) {
        Some(t) => t,
        None => match meta_text(info, "ObjectName"@) {
            Some(t) => t,
            None => or_text(string_in(member(Some(page), "title"@)), untitled),
        },
    }
}

/// What a reply yields: the first page with image information.
pub open spec fn potd_result(json: JsonView, untitled: Seq<char>) -> Result<
    FetchView,
    (FetchProblem, Seq<char>),
> {
    match members_in(member(member(Some(json), "query"@), "pages"@)) {
        None => plainly(FetchProblem::PotdNoPage),
        Some(pages) => {
            let i = next_page(pages, 0);
            if i >= pages.len() {
                plainly(FetchProblem::PotdNoPage)
            } else {
                let page = pages[i].1;
                match first_in(member(Some(page), "imageinfo"@)) {
                    None => plainly(FetchProblem::PotdNoInfo),
                    Some(info) => {
                        let url = match member(Some(info), "thumburl"@) {
                            Some(v) => Some(v),
                            None => member(Some(info), "url"@),
                        };
                        match string_in(url) {
                            None => plainly(FetchProblem::PotdNoUrl),
                            Some(image_url) => Ok(
                                FetchView {
                                    image_url,
                                    title: title_of(info, page, untitled),
                                    copyright: meta_text(info, "Artist"@),
                                    date: None,
                                    extra: entry_for(
                                        "description"@,
                                        meta_text(info, "ImageDescription"@),
                                    ) + entry_for("license"@, meta_text(info, "LicenseShortName"@))
                                        + entry_for("author"@, meta_text(info, "Artist"@)),
                                },
                            ),
                        }
                    },
                }
            }
        },
    }
}

/// What a reply yields; `untitled` names a picture without any title.
pub fn parse_potd_titled(json: &Json, untitled: &str) -> (r: Result<FetchResult, FetchError>)
    ensures
        outcome(r) == potd_result(json@, untitled@),
{
    let found = field(field(Some(json), "query"), "pages");
    let pages: &JsonMap = match found {
        Some(Json::Object(map)) => {
            assert(map@ =~= found->0@->Object_0);
            map
        },
        _ => {
            return Err(failed(FetchProblem::PotdNoPage));
        },
    };
    let mut i: usize = 0;
    while i < pages.members.len() && field(Some(&pages.members[i].1), "imageinfo").is_none()
        invariant
            i <= pages.members.len(),
            next_page(pages@, 0) == next_page(pages@, i as int),
        decreases pages.members.len() - i,
    {
        i += 1;
    }
    if i == pages.members.len() {
        return Err(failed(FetchProblem::PotdNoPage));
    }
    let page = &pages.members[i].1;
    let info = match first(field(Some(page), "imageinfo")) {
        Some(info) => info,
        None => {
            return Err(failed(FetchProblem::PotdNoInfo));
        },
    };
    let url = match field(Some(info), "thumburl") {
        Some(v) => Some(v),
        None => field(Some(info), "url"),
    };
    let image_url = match string(url) {
        Some(u) => u,
        None => {
            return Err(failed(FetchProblem::PotdNoUrl));
        },
    };
    let title = match clean_meta(info, "ImageDescription") {
        Some(t) => t,
        None => match clean_meta(info, "ObjectName") {
            Some(t) => t,
            None => match string(field(Some(page), "title")) {
                Some(t) => t,
                None => untitled.to_owned(),
            },
        },
    };
    let copyright = clean_meta(info, "Artist");
    let mut extra = TextMap::new();
    push_entry(&mut extra, "description", clean_meta(info, "ImageDescription"));
    push_entry(&mut extra, "license", clean_meta(info, "LicenseShortName"));
    push_entry(&mut extra, "author", clean_meta(info, "Artist"));
    let r = FetchResult { image_url, title, copyright, date: None, extra };
    assert(r@.extra =~= (potd_result(json@, untitled@)->Ok_0).extra);
    Ok(r)
}

/// What a reply yields. A picture without any title gets the translated name
/// of the source.
pub fn parse_potd(json: &Json) -> (r: Result<FetchResult, FetchError>)
    ensures
        exists|untitled: Seq<char>| outcome(r) == #[trigger] potd_result(json@, untitled),
{
    proof {
        reveal_strlit("Wikimedia");
    }
    parse_potd_titled(json, gettext("Wikimedia").as_str())
}

/// The result with the requested day as the day of the image.
pub open spec fn dated(
    r: Result<FetchView, (FetchProblem, Seq<char>)>,
    date: Date,
) -> Result<FetchView, (FetchProblem, Seq<char>)> {
    match r {
        Ok(f) => Ok(FetchView { date: Some(date), ..f }),
        Err(e) => Err(e),
    }
}

/// The width of the picture that is asked for.
pub open spec fn width_of(settings: &SourceSettings) -> i64 {
    let w = settings.i64_at("width"@, 1920);
    if w < 640 {
        640
    } else if w > 3840 {
        3840
    } else {
        w
    }
}

pub open spec fn potd_url(settings: &SourceSettings, date: Date) -> Seq<char> {
    API_URL@ + "?action=query&format=json&generator=images&titles=Template:Potd/"@ + iso(date)
        + "&prop=imageinfo&iiprop=url|extmetadata&iiurlwidth="@ + decimal_int(
        width_of(settings) as int,
    )
}

/// What a reply body yields.
pub open spec fn potd_reply(doc: Result<JsonView, Seq<char>>, date: Date, untitled: Seq<char>) -> Result<
    FetchView,
    (FetchProblem, Seq<char>),
> {
    match doc {
        Err(reason) => unreadable("failed to parse Wikimedia response"@, reason),
        Ok(json) => dated(potd_result(json, untitled), date),
    }
}

impl WikimediaPotdSource {
    /// The request for the picture of a day.
    pub fn request_url(&self, settings: &SourceSettings, date: Date) -> (r: String)
        ensures
            r@ == potd_url(settings, date),
    {
        let w = settings.get_i64("width", 1920);
        let width: i64 = if w < 640 {
            640
        } else if w > 3840 {
            3840
        } else {
            w
        };
        let mut url = API_URL.to_owned();
        url.append("?action=query&format=json&generator=images&titles=Template:Potd/");
        url.append(date.to_iso().as_str());
        url.append("&prop=imageinfo&iiprop=url|extmetadata&iiurlwidth=");
        url.append(decimal_of_int(width).as_str());
        url
    }

    /// What the reply to the request yields; the requested day is the day of
    /// the image.
    pub fn read_reply(&self, body: &[u8], date: Date) -> (r: Result<FetchResult, FetchError>)
        ensures
            exists|untitled: Seq<char>|
                outcome(r) == #[trigger] potd_reply(json_in_bytes(body@), date, untitled),
    {
        match parse_bytes(body) {
            Err(reason) => {
                let r: Result<FetchResult, FetchError> = Err(
                    failed_reading("failed to parse Wikimedia response", reason.as_str()),
                );
                assert(outcome(r) == potd_reply(json_in_bytes(body@), date, Seq::empty()));
                r
            },
            Ok(json) => {
                let parsed = parse_potd(&json);
                let ghost t = choose|t: Seq<char>|
                    outcome(parsed) == #[trigger] potd_result(json@, t);
                let r = match parsed {
                    Ok(f) => Ok(
                        FetchResult {
                            image_url: f.image_url,
                            title: f.title,
                            copyright: f.copyright,
                            date: Some(date),
                            extra: f.extra,
                        },
                    ),
                    Err(e) => Err(e),
                };
                assert(outcome(r) == potd_reply(json_in_bytes(body@), date, t));
                r
            },
        }
    }
}

impl Source for WikimediaPotdSource {
    open spec fn spec_id(&self) -> Seq<char> {
        "wikimedia"@
    }

    open spec fn is_daily(&self) -> bool {
        true
    }

    open spec fn english_name(&self) -> Seq<char> {
        "Wikimedia"@
    }

    open spec fn translates_name(&self) -> bool {
        true
    }

    open spec fn setting_messages(&self) -> Seq<Seq<char>> {
        seq!["Thumbnail width"@]
    }

    open spec fn settings_for(&self, texts: Seq<Seq<char>>, system: Seq<char>) -> Seq<SettingView> {
        seq![
            SettingView::Int { key: "width"@, label: texts[0], default: 1920, min: 640, max: 3840 },
        ]
    }

    fn id(&self) -> (r: &'static str) {
        "wikimedia"
    }

    fn name(&self) -> (r: (&'static str, bool)) {
        proof {
            reveal_strlit("Wikimedia");
        }
        ("Wikimedia", true)
    }

    fn display_name(&self) -> (r: String) {
        shown_name(self.name())
    }

    fn messages(&self) -> (r: Vec<&'static str>) {
        proof {
            reveal_strlit("Thumbnail width");
        }
        let r: Vec<&'static str> = vec!["Thumbnail width"];
        assert(str_texts(r@) =~= self.setting_messages());
        r
    }

    fn settings_in(&self, translations: &Vec<String>, system: &str) -> (r: Vec<SettingSpec>) {
        let mut out: Vec<SettingSpec> = Vec::new();
        push_setting(
            &mut out,
            SettingSpec::Int {
                key: "width",
                label: translations[0].clone(),
                default: 1920,
                min: 640,
                max: 3840,
            },
        );
        assert(setting_views(out@) =~= self.settings_for(texts(translations@), system@));
        out
    }

    fn daily(&self) -> (r: bool) {
        true
    }
}

} // verus!
