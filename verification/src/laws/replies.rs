//! What the sources' replies yield, told from the documents.

use vstd::prelude::*;

use crate::date::{day_in_text, Date};
use crate::json::{json_in_text, member, string_in, JsonView};
use crate::laws::documents::{holds, lacks, lemma_held, lemma_lacking};
use crate::source::{problem_text, text_at, with_text, FetchProblem, FetchView};
use crate::sources::bing::bing_result;
use crate::sources::earthview::{catalogue, earth_entry, place_title};
use crate::sources::europeana::{
    author_of, description_of, europeana_reply, europeana_result, first_filled, first_name,
    last_filled, next_with_image, page_of, strings_at, strings_of,
};
use crate::sources::nasa::apod_result;
use crate::sources::picsum::{page_entries, picsum_entry};
use crate::sources::spotlight::{ad_result, covers, spotlight_result};
use crate::sources::wikimedia::{dated, html_text, meta_text, next_page, potd_result, title_of};
use crate::text::{contains, decimal, trim};

verus! {

/// The document is an object with this member.
pub open spec fn says(doc: JsonView, key: Seq<char>, value: JsonView) -> bool {
    doc is Object && holds(doc->Object_0, key, value)
}

/// The document is an object without such a member.
pub open spec fn silent(doc: JsonView, key: Seq<char>) -> bool {
    doc is Object && lacks(doc->Object_0, key)
}

/// A text member.
pub open spec fn says_text(doc: JsonView, key: Seq<char>, s: Seq<char>) -> bool {
    says(doc, key, JsonView::Str(s))
}

proof fn lemma_said(doc: JsonView, key: Seq<char>, value: JsonView)
    ensures
        says(doc, key, value) ==> member(Some(doc), key) == Some(value),
        silent(doc, key) ==> member(Some(doc), key) is None,
{
    if says(doc, key, value) {
        lemma_held(doc->Object_0, key, value);
        assert(doc == JsonView::Object(doc->Object_0));
    }
    if silent(doc, key) {
        lemma_lacking(doc->Object_0, key);
        assert(doc == JsonView::Object(doc->Object_0));
    }
}

proof fn lemma_said_text(doc: JsonView, key: Seq<char>, s: Seq<char>)
    ensures
        says_text(doc, key, s) ==> member(Some(doc), key) == Some(JsonView::Str(s)) && string_in(
            member(Some(doc), key),
        ) == Some(s),
        silent(doc, key) ==> member(Some(doc), key) is None && string_in(
            member(Some(doc), key),
        ) is None,
{
    lemma_said(doc, key, JsonView::Str(s));
}

/// Bing's reply yields its first image: in full resolution that of its base
/// address, else the listed one; with its title, its day, and its credit on a
/// line of its own.
pub proof fn lemma_bing_yields(
    json: JsonView,
    images: Seq<JsonView>,
    resolution: Seq<char>,
    untitled: Seq<char>,
    base: Seq<char>,
    url: Seq<char>,
    title: Seq<char>,
    caption: Seq<char>,
    day: Seq<char>,
)
    requires
        says(json, "images"@, JsonView::List(images)),
        images.len() > 0,
        says_text(images[0], "urlbase"@, base),
        says_text(images[0], "url"@, url),
        says_text(images[0], "title"@, title),
        says_text(images[0], "copyright"@, caption),
        says_text(images[0], "startdate"@, day),
    ensures
        ({
            let r = bing_result(json, resolution, untitled);
            &&& r is Ok
            &&& resolution == "UHD"@ ==> r->Ok_0.image_url == "https://www.bing.com"@ + base
                + "_UHD.jpg"@
            &&& resolution != "UHD"@ ==> r->Ok_0.image_url == "https://www.bing.com"@ + url
            &&& title.len() > 0 ==> r->Ok_0.title == title
            &&& title.len() == 0 ==> r->Ok_0.title == untitled
            &&& r->Ok_0.copyright == Some(crate::sources::bing::split_credit(caption))
            &&& r->Ok_0.date == day_in_text(day, "%Y%m%d"@)
            &&& r->Ok_0.extra.len() == 0
        }),
{
    lemma_said(json, "images"@, JsonView::List(images));
    let img = images[0];
    lemma_said_text(img, "urlbase"@, base);
    lemma_said_text(img, "url"@, url);
    lemma_said_text(img, "title"@, title);
    lemma_said_text(img, "copyright"@, caption);
    lemma_said_text(img, "startdate"@, day);
}

/// What Bing's reply is refused for, and what may be missing from it.
pub proof fn lemma_bing_missing(
    json: JsonView,
    images: Seq<JsonView>,
    resolution: Seq<char>,
    untitled: Seq<char>,
    base: Seq<char>,
)
    ensures
        silent(json, "images"@) || says(json, "images"@, JsonView::List(Seq::empty()))
            ==> bing_result(json, resolution, untitled) == Err::<
            FetchView,
            (FetchProblem, Seq<char>),
        >((FetchProblem::BingNoImages, Seq::empty())),
        says(json, "images"@, JsonView::List(images)) && images.len() > 0 && silent(
            images[0],
            "urlbase"@,
        ) ==> bing_result(json, "UHD"@, untitled) == Err::<FetchView, (FetchProblem, Seq<char>)>(
            (FetchProblem::BingNoUrlbase, Seq::empty()),
        ),
        says(json, "images"@, JsonView::List(images)) && images.len() > 0 && silent(
            images[0],
            "url"@,
        ) && resolution != "UHD"@ ==> bing_result(json, resolution, untitled) == Err::<
            FetchView,
            (FetchProblem, Seq<char>),
        >((FetchProblem::BingNoUrl, Seq::empty())),
        says(json, "images"@, JsonView::List(images)) && images.len() > 0 && says_text(
            images[0],
            "urlbase"@,
            base,
        ) && silent(images[0], "title"@) && silent(images[0], "copyright"@) && silent(
            images[0],
            "startdate"@,
        ) ==> {
            let r = bing_result(json, "UHD"@, untitled);
            r is Ok && r->Ok_0.title == untitled && r->Ok_0.copyright is None && r->Ok_0.date is None
        },
{
    lemma_said(json, "images"@, JsonView::List(images));
    lemma_said(json, "images"@, JsonView::List(Seq::empty()));
    if images.len() > 0 {
        let img = images[0];
        lemma_said_text(img, "urlbase"@, base);
        lemma_said_text(img, "url"@, base);
        lemma_said_text(img, "title"@, base);
        lemma_said_text(img, "copyright"@, base);
        lemma_said_text(img, "startdate"@, base);
    }
}

/// NASA's picture: the large one where that is asked for and there, else the
/// other; with its title, credit, day and explanation.
pub proof fn lemma_nasa_yields(
    json: JsonView,
    hd: bool,
    untitled: Seq<char>,
    url: Seq<char>,
    large: Seq<char>,
    title: Seq<char>,
    credit: Seq<char>,
    day: Seq<char>,
    explanation: Seq<char>,
)
    requires
        says_text(json, "media_type"@, "image"@) || silent(json, "media_type"@),
        says_text(json, "url"@, url),
        says_text(json, "title"@, title),
        says_text(json, "copyright"@, credit),
        says_text(json, "date"@, day),
        says_text(json, "explanation"@, explanation),
    ensures
        ({
            let r = apod_result(json, hd, untitled);
            &&& r is Ok
            &&& hd && says_text(json, "hdurl"@, large) ==> r->Ok_0.image_url == large
            &&& !hd || silent(json, "hdurl"@) ==> r->Ok_0.image_url == url
            &&& r->Ok_0.title == (if title.len() > 0 {
                title
            } else {
                untitled
            })
            &&& r->Ok_0.copyright == Some(credit)
            &&& r->Ok_0.date == day_in_text(day, "%Y-%m-%d"@)
            &&& text_at(r->Ok_0.extra, "summary"@) == Some(explanation)
        }),
{
    lemma_said_text(json, "media_type"@, "image"@);
    lemma_said_text(json, "url"@, url);
    lemma_said_text(json, "hdurl"@, large);
    lemma_said_text(json, "title"@, title);
    lemma_said_text(json, "copyright"@, credit);
    lemma_said_text(json, "date"@, day);
    lemma_said_text(json, "explanation"@, explanation);
    let extra = apod_result(json, hd, untitled)->Ok_0.extra;
    assert(extra[0] == ("summary"@, explanation));
}

/// A day that is no image is refused with what it is; one without an address is
/// refused too. A day without a credit has none.
pub proof fn lemma_nasa_missing(
    json: JsonView,
    hd: bool,
    untitled: Seq<char>,
    media: Seq<char>,
    url: Seq<char>,
)
    ensures
        says_text(json, "media_type"@, media) && media != "image"@ ==> apod_result(
            json,
            hd,
            untitled,
        ) == Err::<FetchView, (FetchProblem, Seq<char>)>((FetchProblem::ApodNotImage, media)),
        says_text(json, "media_type"@, "image"@) && silent(json, "url"@) && silent(json, "hdurl"@)
            ==> apod_result(json, hd, untitled) == Err::<FetchView, (FetchProblem, Seq<char>)>(
            (FetchProblem::ApodNoUrl, Seq::empty()),
        ),
        silent(json, "media_type"@) && says_text(json, "url"@, url) && silent(json, "copyright"@)
            && silent(json, "title"@) && silent(json, "date"@) && silent(json, "explanation"@) ==> {
            let r = apod_result(json, hd, untitled);
            r is Ok && r->Ok_0.copyright is None && r->Ok_0.title == untitled && r->Ok_0.date is None
                && r->Ok_0.extra.len() == 0
        },
{
    lemma_said_text(json, "media_type"@, media);
    lemma_said_text(json, "media_type"@, "image"@);
    lemma_said_text(json, "url"@, url);
    lemma_said_text(json, "hdurl"@, url);
    lemma_said_text(json, "title"@, url);
    lemma_said_text(json, "copyright"@, url);
    lemma_said_text(json, "date"@, url);
    lemma_said_text(json, "explanation"@, url);
}

/// A text under a key is read back, and one under another key stays.
pub proof fn lemma_text_reads_back(
    entries: Seq<(Seq<char>, Seq<char>)>,
    key: Seq<char>,
    value: Seq<char>,
    other: Seq<char>,
)
    ensures
        text_at(with_text(entries, key, value), key) == Some(value),
        other != key ==> text_at(with_text(entries, key, value), other) == text_at(entries, other),
        text_at(Seq::empty(), key) is None,
{
    lemma_text_put(entries, key, value, other, 0);
}

proof fn lemma_text_put(
    entries: Seq<(Seq<char>, Seq<char>)>,
    key: Seq<char>,
    value: Seq<char>,
    other: Seq<char>,
    from: int,
)
    requires
        0 <= from <= entries.len(),
    ensures
        ({
            let i = crate::source::text_position(entries, key, from);
            let after = if i < entries.len() {
                entries.update(i, (key, value))
            } else {
                entries.push((key, value))
            };
            &&& from <= i <= entries.len()
            &&& text_at(after.skip(from), key) == Some(value)
            &&& other != key ==> text_at(after.skip(from), other) == text_at(
                entries.skip(from),
                other,
            )
            &&& from == 0 ==> after.skip(0) == after && entries.skip(0) == entries
        }),
    decreases entries.len() - from,
{
    let i = crate::source::text_position(entries, key, from);
    let after = if i < entries.len() {
        entries.update(i, (key, value))
    } else {
        entries.push((key, value))
    };
    assert(after.skip(0) =~= after);
    assert(entries.skip(0) =~= entries);
    if from >= entries.len() {
        assert(after.skip(from) =~= seq![(key, value)]);
        assert(entries.skip(from) =~= Seq::empty());
        reveal_with_fuel(text_at, 2);
        assert(seq![(key, value)].skip(1) =~= Seq::<(Seq<char>, Seq<char>)>::empty());
    } else if entries[from].0 == key {
        assert(after.skip(from).skip(1) =~= entries.skip(from).skip(1));
        assert(after.skip(from)[0] == (key, value));
        assert(entries.skip(from)[0] == entries[from]);
    } else {
        lemma_text_put(entries, key, value, other, from + 1);
        assert(after.skip(from).skip(1) =~= after.skip(from + 1));
        assert(entries.skip(from).skip(1) =~= entries.skip(from + 1));
        assert(after.skip(from)[0] == entries[from]);
        assert(entries.skip(from)[0] == entries[from]);
    }
}

/// Spotlight's advertisement yields its landscape image, else the portrait, with
/// its title, credit, description and identity.
pub proof fn lemma_spotlight_yields(
    ad: JsonView,
    land: JsonView,
    port: JsonView,
    untitled: Seq<char>,
    wide: Seq<char>,
    tall: Seq<char>,
    title: Seq<char>,
    credit: Seq<char>,
    description: Seq<char>,
    id: Seq<char>,
)
    requires
        says(ad, "landscapeImage"@, land) && says_text(land, "asset"@, wide) || silent(
            ad,
            "landscapeImage"@,
        ) && says(ad, "portraitImage"@, port) && says_text(port, "asset"@, tall),
        says_text(ad, "title"@, title),
        says_text(ad, "copyright"@, credit),
        says_text(ad, "description"@, description),
        says_text(ad, "entityId"@, id),
        id.len() > 0,
    ensures
        ({
            let r = ad_result(ad, untitled);
            &&& r is Ok
            &&& says(ad, "landscapeImage"@, land) ==> r->Ok_0.image_url == wide
            &&& silent(ad, "landscapeImage"@) ==> r->Ok_0.image_url == tall
            &&& r->Ok_0.title == (if title.len() > 0 {
                title
            } else {
                untitled
            })
            &&& r->Ok_0.copyright == Some(credit)
            &&& text_at(r->Ok_0.extra, "description"@) == Some(description)
            &&& text_at(r->Ok_0.extra, "dedup-id"@) == Some(id)
        }),
{
    lemma_said(ad, "landscapeImage"@, land);
    lemma_said(ad, "portraitImage"@, port);
    lemma_said_text(land, "asset"@, wide);
    lemma_said_text(port, "asset"@, tall);
    lemma_said_text(ad, "title"@, title);
    lemma_said_text(ad, "copyright"@, credit);
    lemma_said_text(ad, "description"@, description);
    lemma_said_text(ad, "entityId"@, id);
    let extra = ad_result(ad, untitled)->Ok_0.extra;
    reveal_strlit("description");
    reveal_strlit("dedup-id");
    assert("description"@.len() != "dedup-id"@.len());
    assert(extra =~= seq![("description"@, description), ("dedup-id"@, id)]);
    assert(extra.skip(1)[0] == ("dedup-id"@, id));
    reveal_with_fuel(text_at, 3);
}

/// Without either image Spotlight yields the preview of its film, and without
/// that it is refused; an empty identity is none.
pub proof fn lemma_spotlight_preview(
    ad: JsonView,
    film: JsonView,
    untitled: Seq<char>,
    preview: Seq<char>,
)
    requires
        silent(ad, "landscapeImage"@),
        silent(ad, "portraitImage"@),
        silent(ad, "entityId"@) || says_text(ad, "entityId"@, Seq::empty()),
    ensures
        says(ad, "video"@, film) && says_text(film, "PreviewImagePath"@, preview) ==> ad_result(
            ad,
            untitled,
        ) is Ok && ad_result(ad, untitled)->Ok_0.image_url == preview && text_at(
            ad_result(ad, untitled)->Ok_0.extra,
            "dedup-id"@,
        ) is None,
        silent(ad, "video"@) ==> ad_result(ad, untitled) == Err::<
            FetchView,
            (FetchProblem, Seq<char>),
        >((FetchProblem::SpotlightNoUrl, Seq::empty())),
{
    lemma_said(ad, "landscapeImage"@, film);
    lemma_said(ad, "portraitImage"@, film);
    lemma_said(ad, "video"@, film);
    lemma_said_text(film, "PreviewImagePath"@, preview);
    lemma_said_text(ad, "entityId"@, Seq::empty());
    let extra = ad_result(ad, untitled)->Ok_0.extra;
    reveal_strlit("description");
    reveal_strlit("dedup-id");
    assert("description"@.len() != "dedup-id"@.len());
    reveal_with_fuel(text_at, 3);
    if ad_result(ad, untitled) is Ok && extra.len() > 0 {
        assert(extra[0].0 == "description"@);
        assert(extra.skip(1) =~= Seq::empty());
    }
}

/// Spotlight's reply holds a document as a text in its first item; what that
/// document's advertisement yields is what the reply yields.
pub proof fn lemma_spotlight_unwraps(
    json: JsonView,
    batch: JsonView,
    items: Seq<JsonView>,
    item: Seq<char>,
    inner: JsonView,
    ad: JsonView,
    untitled: Seq<char>,
)
    requires
        says(json, "batchrsp"@, batch),
        says(batch, "items"@, JsonView::List(items)),
        items.len() > 0,
        says_text(items[0], "item"@, item),
    ensures
        covers(json),
        json_in_text(item) == Ok::<JsonView, Seq<char>>(inner) && says(inner, "ad"@, ad)
            ==> spotlight_result(json, untitled) == ad_result(ad, untitled),
        json_in_text(item) == Ok::<JsonView, Seq<char>>(inner) && silent(inner, "ad"@)
            ==> spotlight_result(json, untitled) == Err::<FetchView, (FetchProblem, Seq<char>)>(
            (FetchProblem::SpotlightNoAd, Seq::empty()),
        ),
        json_in_text(item) is Err ==> spotlight_result(json, untitled) == Err::<
            FetchView,
            (FetchProblem, Seq<char>),
        >((FetchProblem::SpotlightBadItem, json_in_text(item)->Err_0)),
{
    lemma_said(json, "batchrsp"@, batch);
    lemma_said(batch, "items"@, JsonView::List(items));
    lemma_said_text(items[0], "item"@, item);
    lemma_said(inner, "ad"@, ad);
}

/// A reply of Spotlight without items tells the message of its first error.
pub proof fn lemma_spotlight_refusal(
    json: JsonView,
    batch: JsonView,
    errors: Seq<JsonView>,
    message: Seq<char>,
    untitled: Seq<char>,
)
    requires
        says(json, "batchrsp"@, batch),
        silent(batch, "items"@) || says(batch, "items"@, JsonView::List(Seq::empty())),
    ensures
        !covers(json),
        says(batch, "errors"@, JsonView::List(errors)) && errors.len() > 0 && says_text(
            errors[0],
            "msg"@,
            message,
        ) ==> spotlight_result(json, untitled) == Err::<FetchView, (FetchProblem, Seq<char>)>(
            (FetchProblem::SpotlightNoItems, message),
        ),
        silent(batch, "errors"@) ==> spotlight_result(json, untitled) == Err::<
            FetchView,
            (FetchProblem, Seq<char>),
        >((FetchProblem::SpotlightNoItems, "no items in response"@)),
{
    lemma_said(json, "batchrsp"@, batch);
    lemma_said(batch, "items"@, JsonView::List(Seq::empty()));
    lemma_said(batch, "errors"@, JsonView::List(errors));
    if errors.len() > 0 {
        lemma_said_text(errors[0], "msg"@, message);
    }
}

/// A Lorem Picsum entry yields the image of its id in the size and with the
/// effects that are asked for, with its author and its page.
pub proof fn lemma_picsum_yields(
    entry: JsonView,
    w: i64,
    h: i64,
    effects: Seq<char>,
    id: Seq<char>,
    author: Seq<char>,
    page: Seq<char>,
)
    requires
        says_text(entry, "id"@, id),
        id.len() > 0,
        says_text(entry, "author"@, author),
        author.len() > 0,
        says_text(entry, "url"@, page),
        w >= 0,
        h >= 0,
    ensures
        ({
            let r = picsum_entry(entry, w, h, effects);
            &&& r is Ok
            &&& r->Ok_0.image_url == "https://picsum.photos/id/"@ + id + "/"@ + decimal(w as nat)
                + "/"@ + decimal(h as nat) + effects
            &&& r->Ok_0.title == id
            &&& r->Ok_0.copyright is None
            &&& r->Ok_0.date is None
            &&& text_at(r->Ok_0.extra, "summary"@) == Some(author)
            &&& text_at(r->Ok_0.extra, "source"@) == Some(page)
        }),
{
    lemma_said_text(entry, "id"@, id);
    lemma_said_text(entry, "author"@, author);
    lemma_said_text(entry, "url"@, page);
    let extra = picsum_entry(entry, w, h, effects)->Ok_0.extra;
    reveal_strlit("summary");
    reveal_strlit("source");
    assert("summary"@.len() != "source"@.len());
    assert(extra =~= seq![("summary"@, author), ("source"@, page)]);
    assert(extra.skip(1)[0] == ("source"@, page));
    reveal_with_fuel(text_at, 3);
}

/// An entry without an id is refused, and so are a page that is no list and an
/// empty one.
pub proof fn lemma_picsum_missing(
    entry: JsonView,
    w: i64,
    h: i64,
    effects: Seq<char>,
    entries: Seq<JsonView>,
    page: nat,
)
    ensures
        silent(entry, "id"@) || says_text(entry, "id"@, Seq::empty()) ==> picsum_entry(
            entry,
            w,
            h,
            effects,
        ) == Err::<FetchView, (FetchProblem, Seq<char>)>((FetchProblem::PicsumNoId, Seq::empty())),
        entries.len() > 0 ==> page_entries(
            Ok::<JsonView, Seq<char>>(JsonView::List(entries)),
            page as int,
        ) == Ok::<Seq<JsonView>, (FetchProblem, Seq<char>)>(entries),
        entries.len() == 0 ==> page_entries(
            Ok::<JsonView, Seq<char>>(JsonView::List(entries)),
            page as int,
        ) == Err::<Seq<JsonView>, (FetchProblem, Seq<char>)>(
            (FetchProblem::PicsumEmpty, decimal(page)),
        ),
        !(entry is List) ==> page_entries(Ok::<JsonView, Seq<char>>(entry), page as int) == Err::<
            Seq<JsonView>,
            (FetchProblem, Seq<char>),
        >((FetchProblem::PicsumNotList, Seq::empty())),
{
    lemma_said_text(entry, "id"@, Seq::empty());
}

/// An Earth View entry yields its image, titled by its place, with its
/// attribution and its map.
pub proof fn lemma_earthview_yields(
    entry: JsonView,
    image: Seq<char>,
    region: Seq<char>,
    country: Seq<char>,
    credit: Seq<char>,
    map: Seq<char>,
)
    requires
        says_text(entry, "image"@, image),
        image.len() > 0,
        says_text(entry, "region"@, region),
        says_text(entry, "country"@, country),
        says_text(entry, "attribution"@, credit),
        says_text(entry, "map"@, map),
    ensures
        ({
            let r = earth_entry(entry);
            &&& r is Ok
            &&& r->Ok_0.image_url == image
            &&& region.len() > 0 && country.len() > 0 ==> r->Ok_0.title == region + ", "@ + country
            &&& region.len() > 0 && country.len() == 0 ==> r->Ok_0.title == region
            &&& region.len() == 0 && country.len() > 0 ==> r->Ok_0.title == country
            &&& region.len() == 0 && country.len() == 0 ==> r->Ok_0.title == "Google Earth"@
            &&& r->Ok_0.copyright == Some(credit)
            &&& r->Ok_0.date is None
            &&& text_at(r->Ok_0.extra, "summary"@) == Some(r->Ok_0.title)
            &&& text_at(r->Ok_0.extra, "map"@) == Some(map)
        }),
{
    lemma_said_text(entry, "image"@, image);
    lemma_said_text(entry, "region"@, region);
    lemma_said_text(entry, "country"@, country);
    lemma_said_text(entry, "attribution"@, credit);
    lemma_said_text(entry, "map"@, map);
    let title = place_title(region, country);
    let extra = earth_entry(entry)->Ok_0.extra;
    reveal_strlit("summary");
    reveal_strlit("map");
    assert("summary"@.len() != "map"@.len());
    assert(extra =~= seq![("summary"@, title), ("map"@, map)]);
    assert(extra.skip(1)[0] == ("map"@, map));
    reveal_with_fuel(text_at, 3);
}

/// An entry without an image is refused, and so are a catalogue that is no list
/// and an empty one.
pub proof fn lemma_earthview_missing(entry: JsonView, places: Seq<JsonView>, reason: Seq<char>)
    ensures
        silent(entry, "image"@) || says_text(entry, "image"@, Seq::empty()) ==> earth_entry(entry)
            == Err::<FetchView, (FetchProblem, Seq<char>)>(
            (FetchProblem::EarthNoImage, Seq::empty()),
        ),
        places.len() > 0 ==> catalogue(Ok::<JsonView, Seq<char>>(JsonView::List(places))) == Ok::<
            Seq<JsonView>,
            (FetchProblem, Seq<char>),
        >(places),
        places.len() == 0 ==> catalogue(Ok::<JsonView, Seq<char>>(JsonView::List(places))) == Err::<
            Seq<JsonView>,
            (FetchProblem, Seq<char>),
        >((FetchProblem::EarthEmpty, Seq::empty())),
        !(entry is List) ==> catalogue(Ok::<JsonView, Seq<char>>(entry)) == Err::<
            Seq<JsonView>,
            (FetchProblem, Seq<char>),
        >((FetchProblem::EarthNotList, Seq::empty())),
{
    lemma_said_text(entry, "image"@, Seq::empty());
}

/// A list of texts under a key.
pub open spec fn says_texts(doc: JsonView, key: Seq<char>, texts: Seq<Seq<char>>) -> bool {
    says(doc, key, JsonView::List(Seq::new(texts.len(), |i: int| JsonView::Str(texts[i]))))
}

proof fn lemma_texts_read(texts: Seq<Seq<char>>)
    ensures
        strings_of(Seq::new(texts.len(), |i: int| JsonView::Str(texts[i]))) == texts,
    decreases texts.len(),
{
    let items = Seq::new(texts.len(), |i: int| JsonView::Str(texts[i]));
    if texts.len() > 0 {
        let rest = texts.drop_last();
        lemma_texts_read(rest);
        assert(items.drop_last() =~= Seq::new(rest.len(), |i: int| JsonView::Str(rest[i])));
        assert(items.last() == JsonView::Str(texts.last()));
        assert(strings_of(items) =~= texts);
    } else {
        assert(strings_of(items) =~= texts);
    }
}

proof fn lemma_said_texts(doc: JsonView, key: Seq<char>, texts: Seq<Seq<char>>)
    ensures
        says_texts(doc, key, texts) ==> strings_at(doc, key) == texts,
        silent(doc, key) ==> strings_at(doc, key).len() == 0,
{
    let items = JsonView::List(Seq::new(texts.len(), |i: int| JsonView::Str(texts[i])));
    lemma_said(doc, key, items);
    lemma_texts_read(texts);
}

/// Of texts the first that is not empty is taken, or the last such.
pub proof fn lemma_filled_texts(texts: Seq<Seq<char>>, k: int)
    requires
        0 <= k < texts.len(),
        texts[k].len() > 0,
    ensures
        (forall|i: int| 0 <= i < k ==> (#[trigger] texts[i]).len() == 0) ==> first_filled(texts)
            == Some(texts[k]),
        (forall|i: int| k < i < texts.len() ==> (#[trigger] texts[i]).len() == 0) ==> last_filled(
            texts,
        ) == Some(texts[k]),
    decreases texts.len(),
{
    if forall|i: int| 0 <= i < k ==> (#[trigger] texts[i]).len() == 0 {
        if k > 0 {
            assert(texts[0].len() == 0);
            let rest = texts.skip(1);
            assert(rest[k - 1] == texts[k]);
            assert forall|i: int| 0 <= i < k - 1 implies (#[trigger] rest[i]).len() == 0 by {
                assert(texts[i + 1].len() == 0);
            }
            lemma_filled_texts(rest, k - 1);
        }
    }
    if forall|i: int| k < i < texts.len() ==> (#[trigger] texts[i]).len() == 0 {
        if k < texts.len() - 1 {
            let rest = texts.drop_last();
            assert(texts[texts.len() - 1].len() == 0);
            assert(rest[k] == texts[k]);
            assert forall|i: int| k < i < rest.len() implies (#[trigger] rest[i]).len() == 0 by {
                assert(texts[i].len() == 0);
            }
            lemma_filled_texts(rest, k);
        }
    }
}

/// Empty texts hold none.
pub proof fn lemma_no_filled_text(texts: Seq<Seq<char>>)
    requires
        forall|i: int| 0 <= i < texts.len() ==> (#[trigger] texts[i]).len() == 0,
    ensures
        first_filled(texts) is None,
        last_filled(texts) is None,
    decreases texts.len(),
{
    if texts.len() > 0 {
        assert(texts[0].len() == 0 && texts[texts.len() - 1].len() == 0);
        assert forall|i: int| 0 <= i < texts.skip(1).len() implies (#[trigger] texts.skip(
            1,
        )[i]).len() == 0 by {
            assert(texts[i + 1].len() == 0);
        }
        assert forall|i: int| 0 <= i < texts.drop_last().len() implies (
        #[trigger] texts.drop_last()[i]).len() == 0 by {
            assert(texts[i].len() == 0);
        }
        lemma_no_filled_text(texts.skip(1));
        lemma_no_filled_text(texts.drop_last());
    }
}

/// Europeana's reply yields the first item that has an image: that image, the
/// last of its titles, the first creator that is a name, its description, page,
/// licence and identity.
pub proof fn lemma_europeana_yields(
    json: JsonView,
    items: Seq<JsonView>,
    k: int,
    untitled: Seq<char>,
    image: Seq<char>,
    title: Seq<char>,
    creator: Seq<char>,
    description: Seq<char>,
    page: Seq<char>,
    licence: Seq<char>,
    id: Seq<char>,
)
    requires
        says(json, "items"@, JsonView::List(items)),
        0 <= k < items.len(),
        forall|i: int| 0 <= i < k ==> silent(#[trigger] items[i], "edmIsShownBy"@),
        says_texts(items[k], "edmIsShownBy"@, seq![image]),
        says_texts(items[k], "title"@, seq![title]),
        says_texts(items[k], "dcCreator"@, seq![creator]),
        says_texts(items[k], "dcDescription"@, seq![description]),
        says_texts(items[k], "edmIsShownAt"@, seq![page]),
        says_texts(items[k], "rights"@, seq![licence]),
        says_text(items[k], "id"@, id),
        image.len() > 0,
        title.len() > 0,
        page.len() > 0,
        licence.len() > 0,
        !contains(creator, "http"@),
        0 < trim(description).len() <= 2000,
        trim(id).len() > 0,
    ensures
        ({
            let r = europeana_result(json, untitled);
            &&& r is Ok
            &&& r->Ok_0.image_url == image
            &&& r->Ok_0.title == title
            &&& r->Ok_0.copyright == Some(creator)
            &&& r->Ok_0.date is None
            &&& r->Ok_0.extra == seq![
                ("description"@, trim(description)),
                ("author"@, creator),
                ("source"@, page),
                ("license"@, licence),
                ("dedup-id"@, trim(id)),
            ]
        }),
{
    lemma_said(json, "items"@, JsonView::List(items));
    let item = items[k];
    lemma_said_texts(item, "edmIsShownBy"@, seq![image]);
    lemma_said_texts(item, "title"@, seq![title]);
    lemma_said_texts(item, "dcCreator"@, seq![creator]);
    lemma_said_texts(item, "dcDescription"@, seq![description]);
    lemma_said_texts(item, "edmIsShownAt"@, seq![page]);
    lemma_said_texts(item, "rights"@, seq![licence]);
    lemma_said_text(item, "id"@, id);
    lemma_filled_texts(seq![image], 0);
    lemma_filled_texts(seq![title], 0);
    lemma_filled_texts(seq![page], 0);
    lemma_filled_texts(seq![licence], 0);
    lemma_trim_of_empty(description);
    lemma_filled_texts(seq![description], 0);
    lemma_item_here(items, 0, k);
    assert(europeana_result(json, untitled)->Ok_0.extra =~= seq![
        ("description"@, trim(description)),
        ("author"@, creator),
        ("source"@, page),
        ("license"@, licence),
        ("dedup-id"@, trim(id)),
    ]);
}

proof fn lemma_trim_of_empty(s: Seq<char>)
    requires
        trim(s).len() > 0,
    ensures
        s.len() > 0,
{
}

proof fn lemma_item_here(items: Seq<JsonView>, from: int, k: int)
    requires
        0 <= from <= k < items.len(),
        first_filled(strings_at(items[k], "edmIsShownBy"@)) is Some,
        forall|i: int| from <= i < k ==> silent(#[trigger] items[i], "edmIsShownBy"@),
    ensures
        next_with_image(items, from) == k,
    decreases k - from,
{
    if from < k {
        assert(silent(items[from], "edmIsShownBy"@));
        lemma_said_texts(items[from], "edmIsShownBy"@, Seq::empty());
        lemma_item_here(items, from + 1, k);
    }
}

/// Of several images and licences of an item the first that is not empty counts,
/// of several titles the last; without a title it is untitled.
pub proof fn lemma_europeana_several(
    json: JsonView,
    items: Seq<JsonView>,
    untitled: Seq<char>,
    images: Seq<Seq<char>>,
    titles: Seq<Seq<char>>,
    i: int,
    t: int,
)
    requires
        says(json, "items"@, JsonView::List(items)),
        items.len() > 0,
        says_texts(items[0], "edmIsShownBy"@, images),
        0 <= i < images.len(),
        images[i].len() > 0,
        forall|k: int| 0 <= k < i ==> (#[trigger] images[k]).len() == 0,
    ensures
        europeana_result(json, untitled) is Ok,
        europeana_result(json, untitled)->Ok_0.image_url == images[i],
        says_texts(items[0], "title"@, titles) && 0 <= t < titles.len() && titles[t].len() > 0 && (
        forall|k: int| t < k < titles.len() ==> (#[trigger] titles[k]).len() == 0)
            ==> europeana_result(json, untitled)->Ok_0.title == titles[t],
        silent(items[0], "title"@) ==> europeana_result(json, untitled)->Ok_0.title == untitled,
        silent(items[0], "dcCreator"@) && silent(items[0], "dataProvider"@) ==> europeana_result(
            json,
            untitled,
        )->Ok_0.copyright is None,
{
    lemma_said(json, "items"@, JsonView::List(items));
    let item = items[0];
    lemma_said_texts(item, "edmIsShownBy"@, images);
    lemma_filled_texts(images, i);
    assert(next_with_image(items, 0) == 0);
    lemma_said_texts(item, "title"@, titles);
    if 0 <= t < titles.len() && titles[t].len() > 0 {
        lemma_filled_texts(titles, t);
    }
    lemma_said_texts(item, "dcCreator"@, titles);
    lemma_said_texts(item, "dataProvider"@, titles);
}

/// What a refusal says. The reasons of a parser or a service are told with it.
pub proof fn lemma_refusals_told(detail: Seq<char>, video: Seq<char>)
    ensures
        problem_text(FetchProblem::NotJson, detail, video) == detail,
        problem_text(FetchProblem::BingNoImages, detail, video) == "no images in Bing response"@,
        problem_text(FetchProblem::BingNoUrlbase, detail, video)
            == "Bing response missing urlbase field"@,
        problem_text(FetchProblem::BingNoUrl, detail, video) == "Bing response missing url field"@,
        problem_text(FetchProblem::EarthNotList, detail, video)
            == "Earth View catalogue is not a list"@,
        problem_text(FetchProblem::EarthEmpty, detail, video) == "Earth View catalogue is empty"@,
        problem_text(FetchProblem::EarthNoImage, detail, video)
            == "Earth View entry missing image field"@,
        problem_text(FetchProblem::EuropeanaApi, detail, video) == "Europeana API error: "@
            + detail,
        problem_text(FetchProblem::EuropeanaNoItems, detail, video)
            == "no items in Europeana response"@,
        problem_text(FetchProblem::EuropeanaNoImage, detail, video)
            == "no image in Europeana response"@,
        problem_text(FetchProblem::ApodNotImage, detail, video) == video + ": "@ + detail,
        problem_text(FetchProblem::ApodNoUrl, detail, video) == "APOD response missing image URL"@,
        problem_text(FetchProblem::PicsumNotList, detail, video)
            == "Lorem Picsum list is not an array"@,
        problem_text(FetchProblem::PicsumEmpty, detail, video)
            == "Lorem Picsum list is empty on page "@ + detail,
        problem_text(FetchProblem::PicsumNoId, detail, video) == "Lorem Picsum entry missing id"@,
        problem_text(FetchProblem::SpotlightNoItems, detail, video)
            == "Spotlight response missing items ("@ + detail + ")"@,
        problem_text(FetchProblem::SpotlightBadItem, detail, video)
            == "failed to parse Spotlight item: "@ + detail,
        problem_text(FetchProblem::SpotlightNoAd, detail, video)
            == "Spotlight response missing ad data"@,
        problem_text(FetchProblem::SpotlightNoUrl, detail, video)
            == "Spotlight response missing image URL"@,
        problem_text(FetchProblem::PotdNoPage, detail, video)
            == "no image information in POTD response"@,
        problem_text(FetchProblem::PotdNoInfo, detail, video) == "POTD response missing imageinfo"@,
        problem_text(FetchProblem::PotdNoUrl, detail, video) == "POTD response missing image URL"@,
{
}

/// The creator of an item is the first that is no address; without one it is the
/// first provider.
pub proof fn lemma_europeana_author(
    item: JsonView,
    creators: Seq<Seq<char>>,
    providers: Seq<Seq<char>>,
    k: int,
)
    requires
        says_texts(item, "dcCreator"@, creators),
        says_texts(item, "dataProvider"@, providers),
        0 <= k <= creators.len(),
        forall|i: int| 0 <= i < k ==> contains(#[trigger] creators[i], "http"@),
    ensures
        k < creators.len() && !contains(creators[k], "http"@) ==> author_of(item) == Some(
            creators[k],
        ),
        k == creators.len() && providers.len() > 0 ==> author_of(item) == Some(providers[0]),
        k == creators.len() && providers.len() == 0 ==> author_of(item) is None,
{
    lemma_said_texts(item, "dcCreator"@, creators);
    lemma_said_texts(item, "dataProvider"@, providers);
    lemma_first_name(creators, k);
}

proof fn lemma_first_name(names: Seq<Seq<char>>, k: int)
    requires
        0 <= k <= names.len(),
        forall|i: int| 0 <= i < k ==> contains(#[trigger] names[i], "http"@),
    ensures
        k < names.len() && !contains(names[k], "http"@) ==> first_name(names) == Some(names[k]),
        k == names.len() ==> first_name(names) is None,
    decreases names.len(),
{
    if k > 0 {
        assert(contains(names[0], "http"@));
        let rest = names.skip(1);
        assert forall|i: int| 0 <= i < k - 1 implies contains(#[trigger] rest[i], "http"@) by {
            assert(contains(names[i + 1], "http"@));
        }
        lemma_first_name(rest, k - 1);
    }
}

/// A description is cut behind two thousand characters; a blank one is none.
pub proof fn lemma_europeana_description(item: JsonView, d: Seq<char>)
    requires
        says_texts(item, "dcDescription"@, seq![d]),
        d.len() > 0,
    ensures
        trim(d).len() == 0 ==> description_of(item) is None,
        0 < trim(d).len() <= 2000 ==> description_of(item) == Some(trim(d)),
        trim(d).len() > 2000 ==> description_of(item) == Some(trim(d).take(2000)),
{
    lemma_said_texts(item, "dcDescription"@, seq![d]);
    lemma_filled_texts(seq![d], 0);
}

/// The page of an item is where it is shown, else its own address there.
pub proof fn lemma_europeana_page(item: JsonView, shown: Seq<char>, guid: Seq<char>)
    ensures
        says_texts(item, "edmIsShownAt"@, seq![shown]) && shown.len() > 0 ==> page_of(item)
            == shown,
        silent(item, "edmIsShownAt"@) && says_text(item, "guid"@, guid) ==> page_of(item) == guid,
        silent(item, "edmIsShownAt"@) && silent(item, "guid"@) ==> page_of(item).len() == 0,
{
    lemma_said_texts(item, "edmIsShownAt"@, seq![shown]);
    lemma_said_text(item, "guid"@, guid);
    if shown.len() > 0 {
        lemma_filled_texts(seq![shown], 0);
    }
}

/// A reply of Europeana that says it failed is refused with its message; one
/// without items, or none of them with an image, is refused too.
pub proof fn lemma_europeana_refusals(
    json: JsonView,
    items: Seq<JsonView>,
    message: Seq<char>,
    untitled: Seq<char>,
)
    ensures
        says(json, "success"@, JsonView::Bool(false)) && says_text(json, "message"@, message)
            ==> europeana_reply(Ok::<JsonView, Seq<char>>(json), untitled) == Err::<
            FetchView,
            (FetchProblem, Seq<char>),
        >((FetchProblem::EuropeanaApi, message)),
        says(json, "success"@, JsonView::Bool(false)) && silent(json, "message"@)
            ==> europeana_reply(Ok::<JsonView, Seq<char>>(json), untitled) == Err::<
            FetchView,
            (FetchProblem, Seq<char>),
        >((FetchProblem::EuropeanaApi, "unknown error"@)),
        silent(json, "success"@) || says(json, "success"@, JsonView::Bool(true))
            ==> europeana_reply(Ok::<JsonView, Seq<char>>(json), untitled) == europeana_result(
            json,
            untitled,
        ),
        silent(json, "items"@) ==> europeana_result(json, untitled) == Err::<
            FetchView,
            (FetchProblem, Seq<char>),
        >((FetchProblem::EuropeanaNoItems, Seq::empty())),
        says(json, "items"@, JsonView::List(items)) && (forall|i: int|
            0 <= i < items.len() ==> silent(#[trigger] items[i], "edmIsShownBy"@))
            ==> europeana_result(json, untitled) == Err::<FetchView, (FetchProblem, Seq<char>)>(
            (FetchProblem::EuropeanaNoImage, Seq::empty()),
        ),
{
    lemma_said(json, "success"@, JsonView::Bool(false));
    lemma_said(json, "success"@, JsonView::Bool(true));
    lemma_said_text(json, "message"@, message);
    lemma_said(json, "items"@, JsonView::List(items));
    if forall|i: int| 0 <= i < items.len() ==> silent(#[trigger] items[i], "edmIsShownBy"@) {
        lemma_no_item(items, 0);
    }
}

proof fn lemma_no_item(items: Seq<JsonView>, from: int)
    requires
        0 <= from <= items.len(),
        forall|i: int| 0 <= i < items.len() ==> silent(#[trigger] items[i], "edmIsShownBy"@),
    ensures
        next_with_image(items, from) == items.len(),
    decreases items.len() - from,
{
    if from < items.len() {
        assert(silent(items[from], "edmIsShownBy"@));
        lemma_said_texts(items[from], "edmIsShownBy"@, Seq::empty());
        lemma_no_item(items, from + 1);
    }
}

/// A metadata value of Wikimedia: the text of its HTML.
pub open spec fn says_meta(info: JsonView, key: Seq<char>, raw: Seq<char>) -> bool {
    exists|all: JsonView, one: JsonView| #[trigger]
        says(info, "extmetadata"@, all) && #[trigger] says(all, key, one) && says_text(
            one,
            "value"@,
            raw,
        )
}

proof fn lemma_said_meta(info: JsonView, key: Seq<char>, raw: Seq<char>)
    requires
        says_meta(info, key, raw),
    ensures
        html_text(raw).len() > 0 ==> meta_text(info, key) == Some(html_text(raw)),
        html_text(raw).len() == 0 ==> meta_text(info, key) is None,
{
    let (all, one) = choose|all: JsonView, one: JsonView| #[trigger]
        says(info, "extmetadata"@, all) && #[trigger] says(all, key, one) && says_text(
            one,
            "value"@,
            raw,
        );
    lemma_said(info, "extmetadata"@, all);
    lemma_said(all, key, one);
    lemma_said_text(one, "value"@, raw);
}

/// Wikimedia's reply yields the first page with image information: the scaled
/// image, else the full one, titled by its description, with its artist and
/// licence.
pub proof fn lemma_wikimedia_yields(
    json: JsonView,
    query: JsonView,
    pages: Seq<(Seq<char>, JsonView)>,
    k: int,
    infos: Seq<JsonView>,
    untitled: Seq<char>,
    thumb: Seq<char>,
    url: Seq<char>,
    description: Seq<char>,
    artist: Seq<char>,
    licence: Seq<char>,
)
    requires
        says(json, "query"@, query),
        says(query, "pages"@, JsonView::Object(pages)),
        0 <= k < pages.len(),
        forall|i: int| 0 <= i < k ==> silent((#[trigger] pages[i]).1, "imageinfo"@),
        says(pages[k].1, "imageinfo"@, JsonView::List(infos)),
        infos.len() > 0,
        says_text(infos[0], "thumburl"@, thumb) || silent(infos[0], "thumburl"@) && says_text(
            infos[0],
            "url"@,
            url,
        ),
        says_meta(infos[0], "ImageDescription"@, description),
        says_meta(infos[0], "Artist"@, artist),
        says_meta(infos[0], "LicenseShortName"@, licence),
        html_text(description).len() > 0,
        html_text(artist).len() > 0,
        html_text(licence).len() > 0,
    ensures
        ({
            let r = potd_result(json, untitled);
            &&& r is Ok
            &&& says_text(infos[0], "thumburl"@, thumb) ==> r->Ok_0.image_url == thumb
            &&& silent(infos[0], "thumburl"@) ==> r->Ok_0.image_url == url
            &&& r->Ok_0.title == html_text(description)
            &&& r->Ok_0.copyright == Some(html_text(artist))
            &&& r->Ok_0.extra == seq![
                ("description"@, html_text(description)),
                ("license"@, html_text(licence)),
                ("author"@, html_text(artist)),
            ]
        }),
{
    lemma_said(json, "query"@, query);
    lemma_said(query, "pages"@, JsonView::Object(pages));
    lemma_page_here(pages, 0, k, JsonView::List(infos));
    lemma_said(pages[k].1, "imageinfo"@, JsonView::List(infos));
    let info = infos[0];
    lemma_said_text(info, "thumburl"@, thumb);
    lemma_said_text(info, "url"@, url);
    lemma_said_meta(info, "ImageDescription"@, description);
    lemma_said_meta(info, "Artist"@, artist);
    lemma_said_meta(info, "LicenseShortName"@, licence);
    assert(potd_result(json, untitled)->Ok_0.extra =~= seq![
        ("description"@, html_text(description)),
        ("license"@, html_text(licence)),
        ("author"@, html_text(artist)),
    ]);
}

proof fn lemma_page_here(pages: Seq<(Seq<char>, JsonView)>, from: int, k: int, infos: JsonView)
    requires
        0 <= from <= k < pages.len(),
        says(pages[k].1, "imageinfo"@, infos),
        forall|i: int| from <= i < k ==> silent((#[trigger] pages[i]).1, "imageinfo"@),
    ensures
        next_page(pages, from) == k,
    decreases k - from,
{
    lemma_said(pages[from].1, "imageinfo"@, infos);
    if from < k {
        assert(silent(pages[from].1, "imageinfo"@));
        lemma_page_here(pages, from + 1, k, infos);
    }
}

/// The title of a picture without a description is its name, else the title of
/// its page.
pub proof fn lemma_wikimedia_title(
    info: JsonView,
    page: JsonView,
    untitled: Seq<char>,
    name: Seq<char>,
    title: Seq<char>,
)
    requires
        meta_text(info, "ImageDescription"@) is None,
    ensures
        says_meta(info, "ObjectName"@, name) && html_text(name).len() > 0 ==> title_of(
            info,
            page,
            untitled,
        ) == html_text(name),
        silent(info, "extmetadata"@) && says_text(page, "title"@, title) ==> title_of(
            info,
            page,
            untitled,
        ) == title,
        silent(info, "extmetadata"@) && silent(page, "title"@) ==> title_of(info, page, untitled)
            == untitled,
{
    lemma_said(info, "extmetadata"@, page);
    lemma_said_text(page, "title"@, title);
    if says_meta(info, "ObjectName"@, name) {
        lemma_said_meta(info, "ObjectName"@, name);
    }
}

/// What Wikimedia's reply is refused for.
pub proof fn lemma_wikimedia_missing(
    json: JsonView,
    query: JsonView,
    pages: Seq<(Seq<char>, JsonView)>,
    untitled: Seq<char>,
)
    ensures
        silent(json, "query"@) ==> potd_result(json, untitled) == Err::<
            FetchView,
            (FetchProblem, Seq<char>),
        >((FetchProblem::PotdNoPage, Seq::empty())),
        says(json, "query"@, query) && silent(query, "pages"@) ==> potd_result(json, untitled)
            == Err::<FetchView, (FetchProblem, Seq<char>)>(
            (FetchProblem::PotdNoPage, Seq::empty()),
        ),
        says(json, "query"@, query) && says(query, "pages"@, JsonView::Object(pages)) && pages.len()
            > 0 && says(pages[0].1, "imageinfo"@, JsonView::List(Seq::empty())) ==> potd_result(
            json,
            untitled,
        ) == Err::<FetchView, (FetchProblem, Seq<char>)>((FetchProblem::PotdNoInfo, Seq::empty())),
{
    lemma_said(json, "query"@, query);
    lemma_said(query, "pages"@, JsonView::Object(pages));
    if pages.len() > 0 {
        lemma_said(pages[0].1, "imageinfo"@, JsonView::List(Seq::empty()));
    }
}

/// A dated result has the day, and is else the result as it was; a refusal stays.
pub proof fn lemma_dated(r: Result<FetchView, (FetchProblem, Seq<char>)>, date: Date)
    ensures
        r is Err ==> dated(r, date) == r,
        r is Ok ==> {
            let d = dated(r, date);
            &&& d is Ok
            &&& d->Ok_0.date == Some(date)
            &&& d->Ok_0.image_url == r->Ok_0.image_url
            &&& d->Ok_0.title == r->Ok_0.title
            &&& d->Ok_0.copyright == r->Ok_0.copyright
            &&& d->Ok_0.extra == r->Ok_0.extra
        },
{
}

} // verus!
