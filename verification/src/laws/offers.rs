//! What the sources offer to be set, and how it meets what they ask for.

use vstd::prelude::*;

use crate::date::Date;
use crate::json::JsonView;
use crate::laws::requests::{
    flag_set, lemma_bing_asks_for_index, lemma_nasa_address, lemma_picsum_size,
    lemma_wikimedia_address, number_set, text_set, unset,
};
use crate::source::{BuiltIn, FetchProblem, FetchView, Source, SourceSettings};
use crate::sources::bing::{bing_reply, bing_result, index_of, market_of, markets, resolutions};
use crate::sources::nasa::{apod_reply, apod_result, apod_url};
use crate::sources::picsum::{beyond_last, size_of};
use crate::sources::spotlight::{
    countries, full_locale, locales, spotlight_reply, spotlight_result,
};
use crate::sources::wikimedia::{potd_reply, potd_result, width_of};

verus! {

/// The sources that publish one image a day.
pub proof fn lemma_daily_sources(s: BuiltIn)
    ensures
        s.is_daily() <==> s == BuiltIn::Bing || s == BuiltIn::Nasa || s == BuiltIn::Wikimedia,
{
}

/// The names of the sources, in English.
pub proof fn lemma_source_names()
    ensures
        BuiltIn::Bing.english_name() == "Bing"@,
        BuiltIn::Spotlight.english_name() == "Windows Spotlight"@,
        BuiltIn::Nasa.english_name() == "NASA"@,
        BuiltIn::Wikimedia.english_name() == "Wikimedia"@,
        BuiltIn::EarthView.english_name() == "Google Earth"@,
        BuiltIn::Picsum.english_name() == "Lorem Picsum"@,
        BuiltIn::Europeana.english_name() == "Europeana"@,
{
}

/// Every number that Bing offers is asked for as it is set, and the default is
/// what is asked for where nothing is set.
pub proof fn lemma_bing_offer(
    settings: &SourceSettings,
    texts: Seq<Seq<char>>,
    system: Seq<char>,
    i: i64,
)
    ensures
        ({
            let offer = BuiltIn::Bing.settings_for(texts, system);
            &&& offer.len() == 3
            &&& offer[0].key() == "mkt"@ && offer[0] is Choice && offer[0]->Choice_default
                == "auto"@ && offer[0].label() == texts[0]
            &&& offer[1].key() == "resolution"@ && offer[1] is Choice && offer[1]->Choice_default
                == "UHD"@ && offer[1].label() == texts[2]
            &&& offer[2] is Int && offer[2].key() == "index"@ && offer[2].label() == texts[3]
            &&& offer[2]->min <= i <= offer[2]->max && number_set(settings, offer[2].key(), i)
                ==> index_of(settings) == i
            &&& offer[2]->min == 0 && offer[2]->max == 7
            &&& unset(settings, offer[2].key()) ==> index_of(settings) == offer[2]->Int_default
        }),
{
    lemma_bing_asks_for_index(settings, i);
}

/// Every width that Wikimedia offers is asked for as it is set.
pub proof fn lemma_wikimedia_offer(
    settings: &SourceSettings,
    texts: Seq<Seq<char>>,
    system: Seq<char>,
    date: Date,
    w: i64,
)
    ensures
        ({
            let offer = BuiltIn::Wikimedia.settings_for(texts, system);
            &&& offer.len() == 1
            &&& offer[0] is Int && offer[0].key() == "width"@ && offer[0].label() == texts[0]
            &&& offer[0]->min <= w <= offer[0]->max && number_set(settings, offer[0].key(), w)
                ==> width_of(settings) == w
            &&& offer[0]->min == 640 && offer[0]->max == 3840
            &&& unset(settings, offer[0].key()) ==> width_of(settings) == offer[0]->Int_default
        }),
{
    lemma_wikimedia_address(settings, date, w);
}

/// The sides that Lorem Picsum offers: 0 leaves the side to the default.
pub proof fn lemma_picsum_offer(
    settings: &SourceSettings,
    texts: Seq<Seq<char>>,
    system: Seq<char>,
    w: i64,
    h: i64,
)
    ensures
        ({
            let offer = BuiltIn::Picsum.settings_for(texts, system);
            &&& offer.len() == 4
            &&& offer[0] is Int && offer[0].key() == "width"@ && offer[0].label() == texts[0]
            &&& offer[1] is Int && offer[1].key() == "height"@ && offer[1].label() == texts[1]
            &&& offer[0]->Int_default == 0 && offer[0]->min == 0 && offer[0]->max == 7680
            &&& offer[1]->Int_default == 0 && offer[1]->min == 0 && offer[1]->max == 4320
            &&& w > 0 && number_set(settings, offer[0].key(), w) ==> size_of(settings).0 == w
            &&& h > 0 && number_set(settings, offer[1].key(), h) ==> size_of(settings).1 == h
            &&& offer[2] is Bool && offer[2].key() == "grayscale"@ && !offer[2]->Bool_default
            &&& offer[3] is Bool && offer[3].key() == "blur"@ && !offer[3]->Bool_default
        }),
{
    lemma_picsum_size(settings, w, h);
}

/// The key and the switch that NASA offers; what is asked for without them is
/// what is asked for with their defaults set.
pub proof fn lemma_nasa_offer(
    none: &SourceSettings,
    set: &SourceSettings,
    texts: Seq<Seq<char>>,
    system: Seq<char>,
)
    ensures
        ({
            let offer = BuiltIn::Nasa.settings_for(texts, system);
            &&& offer.len() == 2
            &&& offer[0] is String && offer[0].key() == "api_key"@ && offer[0].label() == texts[0]
            &&& offer[1] is Bool && offer[1].key() == "hd"@ && offer[1].label() == texts[1]
            &&& unset(none, "api_key"@) && unset(none, "hd"@) && text_set(
                set,
                "api_key"@,
                offer[0]->String_default,
            ) && flag_set(set, "hd"@, offer[1]->Bool_default) ==> apod_url(none) == apod_url(set)
        }),
{
    lemma_nasa_address(none, "DEMO_KEY"@, true);
    lemma_nasa_address(set, "DEMO_KEY"@, true);
}

/// What the other sources offer.
pub proof fn lemma_other_offers(texts: Seq<Seq<char>>, system: Seq<char>)
    ensures
        BuiltIn::EarthView.settings_for(texts, system).len() == 0,
        BuiltIn::Spotlight.settings_for(texts, system).len() == 2,
        BuiltIn::Spotlight.settings_for(texts, system)[0].key() == "country"@,
        BuiltIn::Spotlight.settings_for(texts, system)[0]->Choice_default == "auto"@,
        BuiltIn::Spotlight.settings_for(texts, system)[1].key() == "locale"@,
        BuiltIn::Spotlight.settings_for(texts, system)[1]->Choice_default == "auto"@,
        BuiltIn::Europeana.settings_for(texts, system).len() == 2,
        BuiltIn::Europeana.settings_for(texts, system)[0].key() == "api_key"@,
        BuiltIn::Europeana.settings_for(texts, system)[0]->String_default == "api2demo"@,
        BuiltIn::Europeana.settings_for(texts, system)[1].key() == "query"@,
        BuiltIn::Europeana.settings_for(texts, system)[1]->String_default == ""@,
{
}

/// A choice is among those that a list offers.
pub open spec fn offers(choices: Seq<(Seq<char>, Seq<char>)>, value: Seq<char>) -> bool {
    exists|i: int| 0 <= i < choices.len() && (#[trigger] choices[i]).0 == value
}

/// The choices begin with the automatic one, which tells what it comes to; the
/// resolutions hold the default.
pub proof fn lemma_choices_offered(auto: Seq<char>, system: Seq<char>)
    ensures
        markets(auto, system).len() == 12,
        markets(auto, system)[0] == ("auto"@, auto + " ("@ + market_of("auto"@, system) + ")"@),
        offers(markets(auto, system), "zh-CN"@) && offers(markets(auto, system), "en-US"@)
            && offers(markets(auto, system), "de-DE"@) && offers(markets(auto, system), "ja-JP"@),
        resolutions().len() == 3,
        resolutions()[0].0 == "UHD"@ && resolutions()[1].0 == "1920x1080"@ && resolutions()[2].0
            == "1366x768"@,
        countries(auto, system).len() == 9,
        countries(auto, system)[0].0 == "auto"@,
        offers(countries(auto, system), "CN"@) && offers(countries(auto, system), "US"@) && offers(
            countries(auto, system),
            "DE"@,
        ),
        locales(auto, system).len() == 7,
        locales(auto, system)[0] == ("auto"@, auto + " ("@ + full_locale(system) + ")"@),
        offers(locales(auto, system), "zh-CN"@) && offers(locales(auto, system), "en-US"@),
        forall|i: int|
            1 <= i < countries(auto, system).len() ==> (#[trigger] countries(auto, system)[i]).0
                == countries(auto, system)[i].1,
{
    let m = markets(auto, system);
    assert(m[1].0 == "zh-CN"@ && m[3].0 == "en-US"@ && m[5].0 == "ja-JP"@ && m[7].0 == "de-DE"@);
    let c = countries(auto, system);
    assert(c[1].0 == "CN"@ && c[2].0 == "US"@ && c[5].0 == "DE"@);
    let l = locales(auto, system);
    assert(l[1].0 == "zh-CN"@ && l[2].0 == "en-US"@);
}

/// A reply that is no document is refused with the parser's reason; any other
/// yields what its document yields.
pub proof fn lemma_documents_or_refusals(
    json: JsonView,
    reason: Seq<char>,
    text: Seq<char>,
    flag: bool,
    untitled: Seq<char>,
)
    ensures
        bing_reply(Ok::<JsonView, Seq<char>>(json), text, untitled) == bing_result(
            json,
            text,
            untitled,
        ),
        bing_reply(Err::<JsonView, Seq<char>>(reason), text, untitled) == Err::<
            FetchView,
            (FetchProblem, Seq<char>),
        >((FetchProblem::NotJson, "failed to parse Bing response"@ + ": "@ + reason)),
        apod_reply(Ok::<JsonView, Seq<char>>(json), flag, untitled) == apod_result(
            json,
            flag,
            untitled,
        ),
        apod_reply(Err::<JsonView, Seq<char>>(reason), flag, untitled) == Err::<
            FetchView,
            (FetchProblem, Seq<char>),
        >((FetchProblem::NotJson, "failed to parse NASA response"@ + ": "@ + reason)),
{
}

/// Wikimedia's and Spotlight's images are of the day that was asked for.
pub proof fn lemma_replies_are_dated(
    json: JsonView,
    reason: Seq<char>,
    date: Date,
    untitled: Seq<char>,
)
    ensures
        potd_result(json, untitled) is Ok ==> {
            let r = potd_reply(Ok::<JsonView, Seq<char>>(json), date, untitled);
            r is Ok && r->Ok_0.date == Some(date) && r->Ok_0.image_url == potd_result(
                json,
                untitled,
            )->Ok_0.image_url && r->Ok_0.title == potd_result(json, untitled)->Ok_0.title
        },
        potd_result(json, untitled) is Err ==> potd_reply(
            Ok::<JsonView, Seq<char>>(json),
            date,
            untitled,
        ) == potd_result(json, untitled),
        potd_reply(Err::<JsonView, Seq<char>>(reason), date, untitled) is Err,
        spotlight_result(json, untitled) is Ok ==> {
            let r = spotlight_reply(Ok::<JsonView, Seq<char>>(json), date, untitled);
            r is Ok && r->Ok_0.date == Some(date) && r->Ok_0.image_url == spotlight_result(
                json,
                untitled,
            )->Ok_0.image_url && r->Ok_0.title == spotlight_result(json, untitled)->Ok_0.title
        },
        spotlight_result(json, untitled) is Err ==> spotlight_reply(
            Ok::<JsonView, Seq<char>>(json),
            date,
            untitled,
        ) == spotlight_result(json, untitled),
        spotlight_reply(Err::<JsonView, Seq<char>>(reason), date, untitled) is Err,
{
}

/// A page of Lorem Picsum is beyond the last one where it is an empty list.
pub proof fn lemma_beyond_last(entries: Seq<JsonView>, reason: Seq<char>)
    ensures
        beyond_last(Ok::<JsonView, Seq<char>>(JsonView::List(entries))) <==> entries.len() == 0,
        !beyond_last(Err::<JsonView, Seq<char>>(reason)),
        !beyond_last(Ok::<JsonView, Seq<char>>(JsonView::Null)),
{
}

} // verus!
