//! Europeana: Europe's digital cultural heritage, <https://www.europeana.eu>.
//!
//! The search API is asked for openly licensed media in random order, so every
//! fetch draws another artwork.

use vstd::prelude::*;
use vstd::utf8::encode_utf8;

use crate::i18n::gettext;
use crate::json::{
    bool_in, boolean, field, filled, json_in_bytes, list, list_in, member, parse_bytes, string,
    string_in, views, Json, JsonView,
};
use crate::source::{
    entry_for, failed, failed_reading, or_text, outcome, plainly, push_entry, push_setting,
    setting_views, shown_name, str_texts, unreadable, FetchError, FetchProblem, FetchResult,
    FetchView, SettingSpec, SettingView, Source, SourceSettings, TextMap,
};
use crate::text::{chars, contains, free_of, has_text, opt_text, slice, texts, trim, trimmed};

verus! {

pub const API_URL: &'static str = "https://api.europeana.eu/record/v2/search.json";

/// Europeana's public demo key.
pub const DEFAULT_API_KEY: &'static str = "api2demo";

/// Artworks, without documents and photographs.
pub const DEFAULT_QUERY: &'static str = "(painting OR watercolor OR canvas OR artwork) NOT photograph NOT manuscript NOT print NOT book";

/// Longest description kept, in characters.
pub const DESC_MAX: usize = 2000;

pub struct EuropeanaSource;

/// An RFC 3986 unreserved character.
pub open spec fn is_unreserved(b: u8) -> bool {
    ||| 0x41 <= b <= 0x5A
    ||| 0x61 <= b <= 0x7A
    ||| 0x30 <= b <= 0x39
    ||| b == 0x2D
    ||| b == 0x5F
    ||| b == 0x2E
    ||| b == 0x7E
}

/// An upper-case hexadecimal digit.
pub open spec fn hex_digit(n: int) -> char {
    if n < 10 {
        (n + 48) as u8 as char
    } else {
        (n + 55) as u8 as char
    }
}

pub open spec fn encoded_byte(b: u8) -> Seq<char> {
    if is_unreserved(b) {
        seq![b as char]
    } else {
        seq!['%', hex_digit(b as int / 16), hex_digit(b as int % 16)]
    }
}

pub open spec fn encoded_bytes(bytes: Seq<u8>) -> Seq<char>
    decreases bytes.len(),
{
    if bytes.len() == 0 {
        Seq::empty()
    } else {
        encoded_bytes(bytes.drop_last()) + encoded_byte(bytes.last())
    }
}

/// The UTF-8 bytes of a text, all but unreserved characters as `%XX`.
pub open spec fn percent_encoded(s: Seq<char>) -> Seq<char> {
    encoded_bytes(encode_utf8(s))
}

fn hex(n: u8) -> (r: char)
    requires
        n < 16,
    ensures
        r == hex_digit(n as int),
{
    if n < 10 {
        (n + 48) as char
    } else {
        (n + 55) as char
    }
}

/// Percent-encodes the value of a query string.
pub fn percent_encode(s: &str) -> (r: String)
    ensures
        r@ == percent_encoded(s@),
{
    let bytes = s.as_bytes();
    let mut out = String::new();
    let mut i: usize = 0;
    assert(bytes@.take(0) =~= Seq::empty());
    assert(out@ =~= encoded_bytes(bytes@.take(0)));
    while i < bytes.len()
        invariant
            i <= bytes.len(),
            out@ == encoded_bytes(bytes@.take(i as int)),
        decreases bytes.len() - i,
    {
        let b = bytes[i];
        let ghost before = out@;
        assert(bytes@.take(i + 1).drop_last() =~= bytes@.take(i as int));
        if (0x41 <= b && b <= 0x5A) || (0x61 <= b && b <= 0x7A) || (0x30 <= b && b <= 0x39) || b
            == 0x2D || b == 0x5F || b == 0x2E || b == 0x7E {
            out.push(b as char);
        } else {
            out.push('%');
            out.push(hex(b / 16));
            out.push(hex(b % 16));
        }
        assert(out@ =~= before + encoded_byte(b));
        i += 1;
    }
    assert(bytes@.take(i as int) =~= bytes@);
    out
}

/// Encoded text consists of unreserved characters and `%` alone.
pub proof fn lemma_encoded_chars(bytes: Seq<u8>)
    ensures
        forall|i: int|
            0 <= i < encoded_bytes(bytes).len() ==> ({
                let c = #[trigger] encoded_bytes(bytes)[i];
                c == '%' || (c as u32 <= 0x7E && is_unreserved(c as u8))
            }),
    decreases bytes.len(),
{
    if bytes.len() > 0 {
        let head = encoded_bytes(bytes.drop_last());
        lemma_encoded_chars(bytes.drop_last());
        assert forall|i: int| 0 <= i < encoded_bytes(bytes).len() implies ({
            let c = #[trigger] encoded_bytes(bytes)[i];
            c == '%' || (c as u32 <= 0x7E && is_unreserved(c as u8))
        }) by {
            if i < head.len() {
                assert(encoded_bytes(bytes)[i] == head[i]);
            } else {
                assert(encoded_bytes(bytes)[i] == encoded_byte(bytes.last())[i - head.len()]);
            }
        }
    }
}

/// The trimmed text, where anything is left of it.
pub open spec fn non_empty_text(s: Seq<char>) -> Option<Seq<char>> {
    filled(Some(trim(s)))
}

/// The trimmed text, where anything is left of it.
pub fn non_empty(s: &str) -> (r: Option<String>)
    ensures
        opt_text(r) == non_empty_text(s@),
{
    let t = trimmed(s);
    if t.as_str().is_empty() {
        None
    } else {
        Some(t)
    }
}

/// The search request; an empty key or keyword means the default.
pub open spec fn search_url(api_key: Seq<char>, query: Seq<char>) -> Seq<char> {
    API_URL@ + "?wskey="@ + percent_encoded(or_text(non_empty_text(api_key), DEFAULT_API_KEY@))
        + "&query="@ + percent_encoded(or_text(non_empty_text(query), DEFAULT_QUERY@))
        + "&sort=random&rows=30&profile=minimal&reusability=open&media=true&completeness="@
        + percent_encoded("[1 TO 10]"@)
        + "&collection=art&type=IMAGE&img_color=true&img_size=extra_large&img_ratio=landscape"@
}

/// The search request; an empty key or keyword means the default.
pub fn build_url(api_key: &str, query: &str) -> (r: String)
    ensures
        r@ == search_url(api_key@, query@),
{
    let key = match non_empty(api_key) {
        Some(k) => k,
        None => DEFAULT_API_KEY.to_owned(),
    };
    let q = match non_empty(query) {
        Some(q) => q,
        None => DEFAULT_QUERY.to_owned(),
    };
    let mut url = API_URL.to_owned();
    url.append("?wskey=");
    url.append(percent_encode(key.as_str()).as_str());
    url.append("&query=");
    url.append(percent_encode(q.as_str()).as_str());
    url.append("&sort=random&rows=30&profile=minimal&reusability=open&media=true&completeness=");
    url.append(percent_encode("[1 TO 10]").as_str());
    url.append("&collection=art&type=IMAGE&img_color=true&img_size=extra_large&img_ratio=landscape");
    url
}

/// The strings among the items of a list.
pub open spec fn strings_of(items: Seq<JsonView>) -> Seq<Seq<char>>
    decreases items.len(),
{
    if items.len() == 0 {
        Seq::empty()
    } else {
        match items.last() {
            JsonView::Str(s) => strings_of(items.drop_last()).push(s),
            _ => strings_of(items.drop_last()),
        }
    }
}

/// The strings in the list `key` of an item; none where there is no list.
pub open spec fn strings_at(item: JsonView, key: Seq<char>) -> Seq<Seq<char>> {
    match list_in(member(Some(item), key)) {
        Some(items) => strings_of(items),
        None => Seq::empty(),
    }
}

/// The first text that is not empty.
pub open spec fn first_filled(s: Seq<Seq<char>>) -> Option<Seq<char>>
    decreases s.len(),
{
    if s.len() == 0 {
        None
    } else if s[0].len() > 0 {
        Some(s[0])
    } else {
        first_filled(s.skip(1))
    }
}

/// The last text that is not empty.
pub open spec fn last_filled(s: Seq<Seq<char>>) -> Option<Seq<char>>
    decreases s.len(),
{
    if s.len() == 0 {
        None
    } else if s.last().len() > 0 {
        Some(s.last())
    } else {
        last_filled(s.drop_last())
    }
}

/// All strings of a list field.
pub fn list_strings(item: &Json, key: &str) -> (r: Vec<String>)
    ensures
        texts(r@) == strings_at(item@, key@),
{
    let mut out: Vec<String> = Vec::new();
    match list(field(Some(item), key)) {
        Some(items) => {
            let ghost all = views(items@);
            let mut i: usize = 0;
            assert(texts(out@) =~= strings_of(all.take(0)));
            while i < items.len()
                invariant
                    i <= items.len(),
                    all == views(items@),
                    texts(out@) == strings_of(all.take(i as int)),
                decreases items.len() - i,
            {
                let ghost before = texts(out@);
                assert(all.take(i + 1).drop_last() =~= all.take(i as int));
                assert(all.take(i + 1).last() == items@[i as int]@);
                if let Some(s) = string(Some(&items[i])) {
                    let ghost t = s@;
                    out.push(s);
                    assert(texts(out@) =~= before.push(t));
                }
                i += 1;
            }
            assert(all.take(i as int) =~= all);
        },
        None => {
            assert(texts(out@) =~= Seq::empty());
        },
    }
    out
}

/// The first string of a list field that is not empty.
pub fn first_string(item: &Json, key: &str) -> (r: Option<String>)
    ensures
        opt_text(r) == first_filled(strings_at(item@, key@)),
{
    let v = list_strings(item, key);
    let ghost all = texts(v@);
    let mut i: usize = 0;
    assert(all.skip(0) =~= all);
    while i < v.len()
        invariant
            i <= v.len(),
            all == texts(v@),
            all == strings_at(item@, key@),
            first_filled(all) == first_filled(all.skip(i as int)),
        decreases v.len() - i,
    {
        assert(all.skip(i as int).skip(1) =~= all.skip(i + 1));
        assert(all.skip(i as int)[0] == v@[i as int]@);
        if !v[i].as_str().is_empty() {
            return Some(v[i].clone());
        }
        i += 1;
    }
    None
}

/// The last string of a list field that is not empty.
pub fn last_string(item: &Json, key: &str) -> (r: Option<String>)
    ensures
        opt_text(r) == last_filled(strings_at(item@, key@)),
{
    let v = list_strings(item, key);
    let ghost all = texts(v@);
    let mut n: usize = v.len();
    assert(all.take(n as int) =~= all);
    while n > 0
        invariant
            n <= v.len(),
            all == texts(v@),
            all == strings_at(item@, key@),
            last_filled(all) == last_filled(all.take(n as int)),
        decreases n,
    {
        assert(all.take(n as int).drop_last() =~= all.take(n - 1));
        assert(all.take(n as int).last() == v@[n - 1]@);
        if !v[n - 1].as_str().is_empty() {
            return Some(v[n - 1].clone());
        }
        n -= 1;
    }
    None
}

/// The message of a reply that reports a failure.
pub open spec fn api_failure(json: JsonView) -> Option<Seq<char>> {
    if bool_in(member(Some(json), "success"@)) == Some(false) {
        Some(or_text(string_in(member(Some(json), "message"@)), "unknown error"@))
    } else {
        None
    }
}

/// Reports a reply with `success: false` as an error.
pub fn ensure_success(json: &Json) -> (r: Result<(), FetchError>)
    ensures
        match r {
            Ok(_) => api_failure(json@) is None,
            Err(e) => e.problem == FetchProblem::EuropeanaApi && api_failure(json@) == Some(
                e.detail@,
            ),
        },
{
    if let Some(false) = boolean(field(Some(json), "success")) {
        let detail = match string(field(Some(json), "message")) {
            Some(m) => m,
            None => "unknown error".to_owned(),
        };
        return Err(FetchError { problem: FetchProblem::EuropeanaApi, detail });
    }
    Ok(())
}

/// The first item at or behind `from` that has an image, or their number.
pub open spec fn next_with_image(items: Seq<JsonView>, from: int) -> int
    decreases items.len() - from,
{
    if from >= items.len() {
        items.len() as int
    } else if first_filled(strings_at(items[from], "edmIsShownBy"@)) is Some {
        from
    } else {
        next_with_image(items, from + 1)
    }
}

/// The first name that is no URL.
pub open spec fn first_name(names: Seq<Seq<char>>) -> Option<Seq<char>>
    decreases names.len(),
{
    if names.len() == 0 {
        None
    } else if !contains(names[0], "http"@) {
        Some(names[0])
    } else {
        first_name(names.skip(1))
    }
}

/// The author: the first creator that is no URL, else the data provider.
pub open spec fn author_of(item: JsonView) -> Option<Seq<char>> {
    match first_name(strings_at(item, "dcCreator"@)) {
        Some(name) => Some(name),
        None => {
            let providers = strings_at(item, "dataProvider"@);
            if providers.len() > 0 {
                Some(providers[0])
            } else {
                None
            }
        },
    }
}

/// The beginning of the trimmed description.
pub open spec fn description_of(item: JsonView) -> Option<Seq<char>> {
    match first_filled(strings_at(item, "dcDescription"@)) {
        Some(d) => {
            let t = trim(d);
            if t.len() == 0 {
                None
            } else if t.len() > DESC_MAX {
                Some(t.take(DESC_MAX as int))
            } else {
                Some(t)
            }
        },
        None => None,
    }
}

/// The page of the artwork: where it is shown, else its Europeana page.
pub open spec fn page_of(item: JsonView) -> Seq<char> {
    match first_filled(strings_at(item, "edmIsShownAt"@)) {
        Some(u) => u,
        None => or_text(string_in(member(Some(item), "guid"@)), Seq::empty()),
    }
}

pub open spec fn identity_of(item: JsonView) -> Option<Seq<char>> {
    match string_in(member(Some(item), "id"@)) {
        Some(id) => non_empty_text(id),
        None => None,
    }
}

/// What a search reply yields: its first item with an image.
pub open spec fn europeana_result(json: JsonView, untitled: Seq<char>) -> Result<
    FetchView,
    (FetchProblem, Seq<char>),
> {
    match list_in(member(Some(json), "items"@)) {
        None => plainly(FetchProblem::EuropeanaNoItems),
        Some(items) => {
            let i = next_with_image(items, 0);
            if i >= items.len() {
                plainly(FetchProblem::EuropeanaNoImage)
            } else {
                let item = items[i];
                Ok(
                    FetchView {
                        image_url: first_filled(strings_at(item, "edmIsShownBy"@))->0,
                        title: or_text(last_filled(strings_at(item, "title"@)), untitled),
                        copyright: author_of(item),
                        date: None,
                        extra: entry_for("description"@, description_of(item)) + entry_for(
                            "author"@,
                            author_of(item),
                        ) + entry_for("source"@, filled(Some(page_of(item)))) + entry_for(
                            "license"@,
                            first_filled(strings_at(item, "rights"@)),
                        ) + entry_for("dedup-id"@, identity_of(item)),
                    },
                )
            }
        },
    }
}

fn author(item: &Json) -> (r: Option<String>)
    ensures
        opt_text(r) == author_of(item@),
{
    let creators = list_strings(item, "dcCreator");
    let ghost all = texts(creators@);
    let mut i: usize = 0;
    assert(all.skip(0) =~= all);
    while i < creators.len()
        invariant
            i <= creators.len(),
            all == texts(creators@),
            all == strings_at(item@, "dcCreator"@),
            first_name(all) == first_name(all.skip(i as int)),
        decreases creators.len() - i,
    {
        assert(all.skip(i as int).skip(1) =~= all.skip(i + 1));
        assert(all.skip(i as int)[0] == creators@[i as int]@);
        if !has_text(creators[i].as_str(), "http") {
            return Some(creators[i].clone());
        }
        i += 1;
    }
    let providers = list_strings(item, "dataProvider");
    if providers.len() > 0 {
        assert(texts(providers@)[0] == providers@[0]@);
        Some(providers[0].clone())
    } else {
        assert(texts(providers@).len() == 0);
        None
    }
}

fn description(item: &Json) -> (r: Option<String>)
    ensures
        opt_text(r) == description_of(item@),
{
    match first_string(item, "dcDescription") {
        Some(d) => {
            let t = trimmed(d.as_str());
            let v = chars(t.as_str());
            if v.len() == 0 {
                None
            } else if v.len() > DESC_MAX {
                assert(v@.subrange(0, DESC_MAX as int) =~= v@.take(DESC_MAX as int));
                Some(slice(&v, 0, DESC_MAX))
            } else {
                Some(t)
            }
        },
        None => None,
    }
}

/// What a search reply yields; `untitled` names an artwork without a title.
pub fn parse_europeana_titled(json: &Json, untitled: &str) -> (r: Result<FetchResult, FetchError>)
    ensures
        outcome(r) == europeana_result(json@, untitled@),
{
    let items = match list(field(Some(json), "items")) {
        Some(items) => items,
        None => {
            return Err(failed(FetchProblem::EuropeanaNoItems));
        },
    };
    let ghost all = views(items@);
    let mut i: usize = 0;
    while i < items.len() && first_string(&items[i], "edmIsShownBy").is_none()
        invariant
            i <= items.len(),
            all == views(items@),
            next_with_image(all, 0) == next_with_image(all, i as int),
        decreases items.len() - i,
    {
        i += 1;
    }
    if i == items.len() {
        return Err(failed(FetchProblem::EuropeanaNoImage));
    }
    let item = &items[i];
    assert(item@ == all[i as int]);
    let image_url = match first_string(item, "edmIsShownBy") {
        Some(u) => u,
        None => String::new(),
    };
    let page = match first_string(item, "edmIsShownAt") {
        Some(u) => u,
        None => match string(field(Some(item), "guid")) {
            Some(g) => g,
            None => {
                let none = String::new();
                assert(none@ =~= Seq::<char>::empty());
                none
            },
        },
    };
    let title = match last_string(item, "title") {
        Some(t) => t,
        None => untitled.to_owned(),
    };
    let copyright = author(item);
    let identity = match string(field(Some(item), "id")) {
        Some(id) => non_empty(id.as_str()),
        None => None,
    };
    let mut extra = TextMap::new();
    push_entry(&mut extra, "description", description(item));
    push_entry(&mut extra, "author", copyright.clone());
    push_entry(&mut extra, "source", crate::json::filled_string(Some(page)));
    push_entry(&mut extra, "license", first_string(item, "rights"));
    push_entry(&mut extra, "dedup-id", identity);
    let r = FetchResult { image_url, title, copyright, date: None, extra };
    assert(r@.extra =~= (europeana_result(json@, untitled@)->Ok_0).extra);
    Ok(r)
}

/// What a search reply yields. An artwork without a title gets the translated
/// name of the source.
pub fn parse_europeana(json: &Json) -> (r: Result<FetchResult, FetchError>)
    ensures
        exists|untitled: Seq<char>| outcome(r) == #[trigger] europeana_result(json@, untitled),
{
    proof {
        reveal_strlit("Europeana");
    }
    parse_europeana_titled(json, gettext("Europeana").as_str())
}

/// What a reply body yields.
pub open spec fn europeana_reply(doc: Result<JsonView, Seq<char>>, untitled: Seq<char>) -> Result<
    FetchView,
    (FetchProblem, Seq<char>),
> {
    match doc {
        Err(reason) => unreadable("failed to parse Europeana response"@, reason),
        Ok(json) => match api_failure(json) {
            Some(message) => Err((FetchProblem::EuropeanaApi, message)),
            None => europeana_result(json, untitled),
        },
    }
}

impl EuropeanaSource {
    /// The request that draws an artwork.
    pub fn request_url(&self, settings: &SourceSettings) -> (r: String)
        ensures
            r@ == search_url(
                settings.str_at("api_key"@, DEFAULT_API_KEY@),
                settings.str_at("query"@, ""@),
            ),
    {
        let api_key = settings.get_str("api_key", DEFAULT_API_KEY);
        let query = settings.get_str("query", "");
        build_url(api_key.as_str(), query.as_str())
    }

    /// What the reply to the request yields.
    pub fn read_reply(&self, body: &[u8]) -> (r: Result<FetchResult, FetchError>)
        ensures
            exists|untitled: Seq<char>|
                outcome(r) == #[trigger] europeana_reply(json_in_bytes(body@), untitled),
    {
        match parse_bytes(body) {
            Err(reason) => {
                let e = failed_reading("failed to parse Europeana response", reason.as_str());
                let r: Result<FetchResult, FetchError> = Err(e);
                assert(outcome(r) == europeana_reply(json_in_bytes(body@), Seq::empty()));
                r
            },
            Ok(json) => match ensure_success(&json) {
                Err(e) => {
                    let r: Result<FetchResult, FetchError> = Err(e);
                    assert(outcome(r) == europeana_reply(json_in_bytes(body@), Seq::empty()));
                    r
                },
                Ok(_) => {
                    let r = parse_europeana(&json);
                    proof {
                        let t = choose|t: Seq<char>|
                            outcome(r) == #[trigger] europeana_result(json@, t);
                        assert(outcome(r) == europeana_reply(json_in_bytes(body@), t));
                    }
                    r
                },
            },
        }
    }
}

proof fn lemma_no_space_append(a: Seq<char>, b: Seq<char>)
    requires
        free_of(a, ' '),
        free_of(b, ' '),
    ensures
        free_of(a + b, ' '),
{
    assert forall|i: int| 0 <= i < (a + b).len() implies #[trigger] (a + b)[i] != ' ' by {
        if i < a.len() {
            assert((a + b)[i] == a[i]);
        } else {
            assert((a + b)[i] == b[i - a.len()]);
        }
    }
}

proof fn lemma_encoded_no_space(s: Seq<char>)
    ensures
        free_of(percent_encoded(s), ' '),
{
    lemma_encoded_chars(encode_utf8(s));
}

/// Whatever the key and the keyword, the request holds no raw space.
pub proof fn lemma_search_url_has_no_space(api_key: Seq<char>, query: Seq<char>)
    ensures
        free_of(search_url(api_key, query), ' '),
{
    reveal_strlit("https://api.europeana.eu/record/v2/search.json");
    reveal_strlit("?wskey=");
    reveal_strlit("&query=");
    reveal_strlit(
        "&sort=random&rows=30&profile=minimal&reusability=open&media=true&completeness=",
    );
    reveal_strlit(
        "&collection=art&type=IMAGE&img_color=true&img_size=extra_large&img_ratio=landscape",
    );
    let key = percent_encoded(or_text(non_empty_text(api_key), DEFAULT_API_KEY@));
    let q = percent_encoded(or_text(non_empty_text(query), DEFAULT_QUERY@));
    let c = percent_encoded("[1 TO 10]"@);
    lemma_encoded_no_space(or_text(non_empty_text(api_key), DEFAULT_API_KEY@));
    lemma_encoded_no_space(or_text(non_empty_text(query), DEFAULT_QUERY@));
    lemma_encoded_no_space("[1 TO 10]"@);
    let a = API_URL@ + "?wskey="@;
    lemma_no_space_append(API_URL@, "?wskey="@);
    lemma_no_space_append(a, key);
    lemma_no_space_append(a + key, "&query="@);
    let b = a + key + "&query="@;
    lemma_no_space_append(b, q);
    let m = "&sort=random&rows=30&profile=minimal&reusability=open&media=true&completeness="@;
    lemma_no_space_append(b + q, m);
    lemma_no_space_append(b + q + m, c);
    lemma_no_space_append(
        b + q + m + c,
        "&collection=art&type=IMAGE&img_color=true&img_size=extra_large&img_ratio=landscape"@,
    );
}

impl Source for EuropeanaSource {
    open spec fn spec_id(&self) -> Seq<char> {
        "europeana"@
    }

    open spec fn is_daily(&self) -> bool {
        false
    }

    open spec fn english_name(&self) -> Seq<char> {
        "Europeana"@
    }

    open spec fn translates_name(&self) -> bool {
        true
    }

    open spec fn setting_messages(&self) -> Seq<Seq<char>> {
        seq!["API key (optional)"@, "Search keyword"@]
    }

    open spec fn settings_for(&self, texts: Seq<Seq<char>>, system: Seq<char>) -> Seq<SettingView> {
        seq![
            SettingView::String { key: "api_key"@, label: texts[0], default: DEFAULT_API_KEY@ },
            SettingView::String { key: "query"@, label: texts[1], default: ""@ },
        ]
    }

    fn id(&self) -> (r: &'static str) {
        "europeana"
    }

    fn name(&self) -> (r: (&'static str, bool)) {
        proof {
            reveal_strlit("Europeana");
        }
        ("Europeana", true)
    }

    fn display_name(&self) -> (r: String) {
        shown_name(self.name())
    }

    fn messages(&self) -> (r: Vec<&'static str>) {
        proof {
            reveal_strlit("API key (optional)");
            reveal_strlit("Search keyword");
        }
        let r: Vec<&'static str> = vec!["API key (optional)", "Search keyword"];
        assert(str_texts(r@) =~= self.setting_messages());
        r
    }

    fn settings_in(&self, translations: &Vec<String>, system: &str) -> (r: Vec<SettingSpec>) {
        let mut out: Vec<SettingSpec> = Vec::new();
        push_setting(
            &mut out,
            SettingSpec::String {
                key: "api_key",
                label: translations[0].clone(),
                default: DEFAULT_API_KEY,
            },
        );
        push_setting(
            &mut out,
            SettingSpec::String {
                key: "query",
                label: translations[1].clone(),
                default: "",
            },
        );
        assert(setting_views(out@) =~= self.settings_for(texts(translations@), system@));
        out
    }

    fn daily(&self) -> (r: bool) {
        false
    }
}

} // verus!
