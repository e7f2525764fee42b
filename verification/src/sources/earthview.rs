//! Google Earth View: aerial landscapes from a community-mirrored catalogue.
//!
//! Every fetch downloads the catalogue and picks one place at random.

use vstd::prelude::*;

use crate::chance::random_between;
use crate::json::{
    field, filled, filled_string, json_in_bytes, list, list_in, member, parse_bytes, string,
    string_in, views, Json, JsonView,
};
use crate::source::{
    entry_for, failed, failed_reading, or_text, outcome, plainly, push_entry, setting_views,
    shown_name, str_texts, FetchError, FetchProblem, FetchResult, FetchView, SettingSpec,
    SettingView, Source, TextMap,
};
use crate::text::{concat, texts};

verus! {

/// The catalogue: a JSON list of places.
pub const CATALOG_URL: &'static str = "https://github.com/alexpersian/earthview/raw/master/earthview.json";

pub struct EarthViewSource;

/// The title of a place: its region and country, as far as they are known.
pub open spec fn place_title(region: Seq<char>, country: Seq<char>) -> Seq<char> {
    if region.len() == 0 && country.len() == 0 {
        "Google Earth"@
    } else if country.len() == 0 {
        region
    } else if region.len() == 0 {
        country
    } else {
        region + ", "@ + country
    }
}

/// The title of a place: its region and country, as far as they are known.
pub fn location_title(region: &str, country: &str) -> (r: String)
    ensures
        r@ == place_title(region@, country@),
{
    if region.is_empty() && country.is_empty() {
        "Google Earth".to_owned()
    } else if country.is_empty() {
        region.to_owned()
    } else if region.is_empty() {
        country.to_owned()
    } else {
        concat(concat(region, ", ").as_str(), country)
    }
}

/// The text of a field; empty where there is none.
pub open spec fn text_or_empty(entry: JsonView, key: Seq<char>) -> Seq<char> {
    or_text(string_in(member(Some(entry), key)), Seq::empty())
}

/// What an entry of the catalogue yields.
pub open spec fn earth_entry(entry: JsonView) -> Result<FetchView, (FetchProblem, Seq<char>)> {
    match filled(string_in(member(Some(entry), "image"@))) {
        None => plainly(FetchProblem::EarthNoImage),
        Some(image_url) => {
            let title = place_title(
                text_or_empty(entry, "region"@),
                text_or_empty(entry, "country"@),
            );
            Ok(
                FetchView {
                    image_url,
                    title,
                    copyright: string_in(member(Some(entry), "attribution"@)),
                    date: None,
                    extra: entry_for("summary"@, Some(title)) + entry_for(
                        "map"@,
                        string_in(member(Some(entry), "map"@)),
                    ),
                },
            )
        },
    }
}

fn text_of(entry: &Json, key: &str) -> (r: String)
    ensures
        r@ == text_or_empty(entry@, key@),
{
    match string(field(Some(entry), key)) {
        Some(s) => s,
        None => {
            let s = String::new();
            assert(s@ =~= Seq::<char>::empty());
            s
        },
    }
}

/// What an entry of the catalogue yields.
pub fn parse_entry(entry: &Json) -> (r: Result<FetchResult, FetchError>)
    ensures
        outcome(r) == earth_entry(entry@),
{
    let image_url = match filled_string(string(field(Some(entry), "image"))) {
        Some(u) => u,
        None => {
            return Err(failed(FetchProblem::EarthNoImage));
        },
    };
    let region = text_of(entry, "region");
    let country = text_of(entry, "country");
    let title = location_title(region.as_str(), country.as_str());
    let copyright = string(field(Some(entry), "attribution"));
    let mut extra = TextMap::new();
    push_entry(&mut extra, "summary", Some(title.clone()));
    push_entry(&mut extra, "map", string(field(Some(entry), "map")));
    let r = FetchResult { image_url, title, copyright, date: None, extra };
    assert(r@.extra =~= (earth_entry(entry@)->Ok_0).extra);
    Ok(r)
}

/// The places of a catalogue, or what is wrong with it.
pub open spec fn catalogue(doc: Result<JsonView, Seq<char>>) -> Result<
    Seq<JsonView>,
    (FetchProblem, Seq<char>),
> {
    match doc {
        Err(reason) => Err(
            (FetchProblem::NotJson, "failed to parse Earth View catalogue"@ + ": "@ + reason),
        ),
        Ok(json) => match list_in(Some(json)) {
            None => Err((FetchProblem::EarthNotList, Seq::empty())),
            Some(places) => if places.len() == 0 {
                Err((FetchProblem::EarthEmpty, Seq::empty()))
            } else {
                Ok(places)
            },
        },
    }
}

impl EarthViewSource {
    /// What a catalogue yields: one of its places, picked at random.
    pub fn read_reply(&self, body: &[u8]) -> (r: Result<FetchResult, FetchError>)
        ensures
            match catalogue(json_in_bytes(body@)) {
                Err(e) => outcome(r) == Err::<FetchView, (FetchProblem, Seq<char>)>(e),
                Ok(places) => exists|i: int|
                    0 <= i < places.len() && outcome(r) == earth_entry(#[trigger] places[i]),
            },
    {
        let json = match parse_bytes(body) {
            Ok(json) => json,
            Err(reason) => {
                return Err(failed_reading("failed to parse Earth View catalogue", reason.as_str()));
            },
        };
        let places = match list(Some(&json)) {
            Some(places) => places,
            None => {
                return Err(failed(FetchProblem::EarthNotList));
            },
        };
        if places.len() == 0 {
            return Err(failed(FetchProblem::EarthEmpty));
        }
        let i = random_between(0, places.len());
        let r = parse_entry(&places[i]);
        proof {
            let all = catalogue(json_in_bytes(body@))->Ok_0;
            assert(all == views(places@));
            assert(outcome(r) == earth_entry(all[i as int]));
        }
        r
    }
}

impl Source for EarthViewSource {
    open spec fn spec_id(&self) -> Seq<char> {
        "earthview"@
    }

    open spec fn is_daily(&self) -> bool {
        false
    }

    open spec fn english_name(&self) -> Seq<char> {
        "Google Earth"@
    }

    open spec fn translates_name(&self) -> bool {
        false
    }

    open spec fn setting_messages(&self) -> Seq<Seq<char>> {
        Seq::empty()
    }

    open spec fn settings_for(&self, texts: Seq<Seq<char>>, system: Seq<char>) -> Seq<SettingView> {
        Seq::empty()
    }

    fn id(&self) -> (r: &'static str) {
        "earthview"
    }

    fn name(&self) -> (r: (&'static str, bool)) {
        proof {
            reveal_strlit("Google Earth");
        }
        ("Google Earth", false)
    }

    fn display_name(&self) -> (r: String) {
        shown_name(self.name())
    }

    fn messages(&self) -> (r: Vec<&'static str>) {
        let r: Vec<&'static str> = vec![];
        assert(str_texts(r@) =~= self.setting_messages());
        r
    }

    fn settings_in(&self, translations: &Vec<String>, system: &str) -> (r: Vec<SettingSpec>) {
        let mut out: Vec<SettingSpec> = Vec::new();
        assert(setting_views(out@) =~= self.settings_for(texts(translations@), system@));
        out
    }

    fn daily(&self) -> (r: bool) {
        false
    }
}

} // verus!
