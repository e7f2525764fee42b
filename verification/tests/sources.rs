//! Replies of the sources.

use equinox::json::{parse, Json};
use equinox::source::{
    by_id, registry, BuiltIn, FetchProblem, SettingSpec, Source, SourceSettings,
};
use equinox::sources::bing::{
    normalize_copyright, parse_bing, parse_bing_titled, resolve_mkt, BingSource,
};
use equinox::sources::earthview::{location_title, EarthViewSource};
use equinox::sources::europeana::{
    build_url, ensure_success, parse_europeana, parse_europeana_titled, percent_encode, API_URL,
    EuropeanaSource,
};
use equinox::sources::nasa::{parse_apod, parse_apod_titled, NasaApodSource};
use equinox::sources::picsum::{effects_query, resolve_size, PicsumSource, PicsumStep};
use equinox::sources::spotlight::{
    has_items, parse_spotlight, parse_spotlight_titled, SpotlightSource, SpotlightStep,
};
use equinox::sources::wikimedia::{
    clean_meta, parse_potd, parse_potd_titled, strip_html, WikimediaPotdSource,
};
use equinox::sources::{earthview, picsum};

fn doc(text: &str) -> Json {
    parse(text).unwrap()
}

fn item(list: &Json, i: usize) -> &Json {
    match list {
        Json::List(items) => &items[i],
        _ => panic!("not a list"),
    }
}

fn today() -> equinox::date::Date {
    equinox::date::Date { year: 2026, month: 8, day: 3 }
}

// ---------------------------------------------------------------- Bing

const BING: &str = r#"{"images":[{"startdate":"20260803","fullstartdate":"202608031600","enddate":"20260804","url":"/th?id=OHR.AdorableOwlet_EN-US6929234033_1920x1080.jpg&rf=LaDigue_1920x1080.jpg&pid=hp","urlbase":"/th?id=OHR.AdorableOwlet_EN-US6929234033","copyright":"Burrowing owl chicks, Cape Coral, Florida, USA (© mlorenzphotography/Getty Images)","copyrightlink":"https://www.bing.com/search?q=burrowing+owl","title":"Hoot, what a hoot!","quiz":"/search?q=Bing+homepage+quiz","wp":true,"hsh":"e64f1c18480f78138cf56da1049ce2be","drk":1,"top":1,"bot":1,"hs":[]}],"tooltips":{"loading":"Loading...","previous":"Previous image","next":"Next image","walle":"This image cannot be downloaded as wallpaper.","walls":"Download today's beauty. Hover to download!"}}"#;

#[test]
fn bing_parses_real_fixture() {
    let json = doc(BING);
    let r = parse_bing(&json, "UHD").unwrap();
    assert_eq!(r.title, "Hoot, what a hoot!");
    assert_eq!(
        r.copyright.unwrap(),
        "Burrowing owl chicks, Cape Coral, Florida, USA\n© mlorenzphotography/Getty Images"
    );
    assert_eq!(
        r.image_url,
        "https://www.bing.com/th?id=OHR.AdorableOwlet_EN-US6929234033_UHD.jpg"
    );
    assert_eq!(r.date, Some(today()));
}

#[test]
fn keeps_requested_resolution() {
    let json = doc(BING);
    let r = parse_bing(&json, "1920x1080").unwrap();
    assert!(r.image_url.contains("_1920x1080.jpg"));
}

#[test]
fn missing_images_is_error() {
    assert!(parse_bing(&doc("{}"), "UHD").is_err());
}

#[test]
fn normalize_copyright_splits_parenthesis() {
    assert_eq!(normalize_copyright("Caption (© Someone)"), "Caption\n© Someone");
    assert_eq!(normalize_copyright("Caption(© Someone)tail"), "Caption\n© Someone tail");
    // No parentheses (or unclosed) — returned unchanged
    assert_eq!(normalize_copyright("No parentheses caption"), "No parentheses caption");
    assert_eq!(normalize_copyright("Only opening paren (x"), "Only opening paren (x");
}

#[test]
fn bing_reports_what_is_missing() {
    let problem = |text: &str, resolution: &str| {
        parse_bing(&doc(text), resolution).unwrap_err().problem
    };
    assert_eq!(problem(r#"{"images":[]}"#, "UHD"), FetchProblem::BingNoImages);
    assert_eq!(problem(r#"{"images":[{"url":"/x"}]}"#, "UHD"), FetchProblem::BingNoUrlbase);
    assert_eq!(problem(r#"{"images":[{"urlbase":"/x"}]}"#, "FHD"), FetchProblem::BingNoUrl);
    let r = parse_bing_titled(&doc(r#"{"images":[{"urlbase":"/x","title":""}]}"#), "UHD", "Untitled")
        .unwrap();
    assert_eq!(r.title, "Untitled");
    assert_eq!(r.copyright, None);
    assert_eq!(r.date, None);
}

#[test]
fn bing_request_follows_settings_and_system() {
    let mut s = SourceSettings::default();
    assert_eq!(
        BingSource.request_url(&s, "zh"),
        "https://www.bing.com/HPImageArchive.aspx?format=js&idx=0&n=1&mkt=zh-CN"
    );
    s.set("index", Json::Int(99));
    s.set("mkt", Json::Str("ja-JP".to_string()));
    assert_eq!(
        BingSource.request_url(&s, "de-DE"),
        "https://www.bing.com/HPImageArchive.aspx?format=js&idx=7&n=1&mkt=ja-JP"
    );
    assert_eq!(resolve_mkt("", "de-DE"), "de-DE");
    assert_eq!(resolve_mkt("auto", "de"), "en-US");
    let r = BingSource.read_reply(BING.as_bytes(), &s).unwrap();
    assert_eq!(r.title, "Hoot, what a hoot!");
    let e = BingSource.read_reply(b"<html>", &s).unwrap_err();
    assert_eq!(e.problem, FetchProblem::NotJson);
    assert_eq!(
        e.message(),
        "failed to parse Bing response: expected value at line 1 column 1"
    );
}

// ---------------------------------------------------------- Earth View

const EARTH: &str = r#"[
      {
        "id": "1003",
        "region": "",
        "country": "Australia",
        "map": "https://www.google.com/maps/@-10.040181,143.560709,11z/data=!3m1!1e3",
        "image": "https://www.gstatic.com/prettyearth/assets/full/1003.jpg",
        "attribution": "©2019 Cnes/Spot Image, Maxar Technologies, Landsat, U.S. Geological Survey"
      },
      {
        "id": "1004",
        "region": "Tamarugal",
        "country": "Chile",
        "map": "https://www.google.com/maps/@-19.140249,-68.683995,14z/data=!3m1!1e3",
        "image": "https://www.gstatic.com/prettyearth/assets/full/1004.jpg",
        "attribution": "©2019 CNES / Astrium, Cnes/Spot Image, Maxar Technologies"
      }
    ]"#;

#[test]
fn parses_real_entry_with_region() {
    let entries = doc(EARTH);
    let r = earthview::parse_entry(item(&entries, 1)).unwrap();
    assert_eq!(r.image_url, "https://www.gstatic.com/prettyearth/assets/full/1004.jpg");
    assert_eq!(r.title, "Tamarugal, Chile");
    assert_eq!(
        r.copyright.as_deref(),
        Some("©2019 CNES / Astrium, Cnes/Spot Image, Maxar Technologies")
    );
    assert_eq!(r.extra.get("summary").map(String::as_str), Some("Tamarugal, Chile"));
    assert!(r.extra.get("map").unwrap().starts_with("https://www.google.com/maps/"));
    assert!(r.date.is_none());
}

#[test]
fn parses_entry_without_region() {
    let entries = doc(EARTH);
    let r = earthview::parse_entry(item(&entries, 0)).unwrap();
    assert_eq!(r.title, "Australia");
}

#[test]
fn missing_image_is_error() {
    assert!(earthview::parse_entry(&doc(r#"{"id": "1", "country": "X"}"#)).is_err());
}

#[test]
fn location_title_rules() {
    assert_eq!(location_title("Tamarugal", "Chile"), "Tamarugal, Chile");
    assert_eq!(location_title("", "Chile"), "Chile");
    assert_eq!(location_title("Tamarugal", ""), "Tamarugal");
    assert_eq!(location_title("", ""), "Google Earth");
}

#[test]
fn catalogue_yields_one_of_its_places() {
    let r = EarthViewSource.read_reply(EARTH.as_bytes()).unwrap();
    assert!(r.title == "Australia" || r.title == "Tamarugal, Chile");
    let problem = |b: &[u8]| EarthViewSource.read_reply(b).unwrap_err().problem;
    assert_eq!(problem(b"nope"), FetchProblem::NotJson);
    assert_eq!(problem(b"{}"), FetchProblem::EarthNotList);
    assert_eq!(problem(b"[]"), FetchProblem::EarthEmpty);
    assert_eq!(problem(b"[{}]"), FetchProblem::EarthNoImage);
}

// ----------------------------------------------------------- Europeana

const EUROPEANA: &str = r#"{
      "apikey": "api2demo",
      "success": true,
      "totalResults": 122621,
      "items": [
        {
          "id": "/990/item_EXAMPLE0001",
          "guid": "https://www.europeana.eu/item/990/item_EXAMPLE0001",
          "title": ["Plant Study"],
          "dcCreator": null,
          "dcDescription": null,
          "dataProvider": ["Art Collection of the University"],
          "edmIsShownBy": ["https://example.org/images/plant-study.jpg"],
          "edmIsShownAt": ["https://example.org/records/1"],
          "type": "IMAGE",
          "rights": ["http://creativecommons.org/licenses/by-sa/4.0/"]
        },
        {
          "id": "/2064116/item_EXAMPLE0002",
          "guid": "https://www.europeana.eu/item/2064116/item_EXAMPLE0002",
          "title": ["The Old Castle"],
          "dcCreator": ["Jane Painter (Attributed to)"],
          "dcDescription": ["A landscape with a ruined castle."],
          "dataProvider": ["National Museum"],
          "edmIsShownBy": ["https://example.org/images/old-castle.jpg"],
          "edmIsShownAt": ["https://example.org/records/2"],
          "type": "IMAGE",
          "rights": ["http://creativecommons.org/publicdomain/mark/1.0/"]
        }
      ]
    }"#;

#[test]
fn percent_encode_keeps_unreserved() {
    assert_eq!(percent_encode("abc-._~123"), "abc-._~123");
    assert_eq!(percent_encode("a b(c)[d]"), "a%20b%28c%29%5Bd%5D");
    assert_eq!(percent_encode("爱"), "%E7%88%B1");
}

#[test]
fn build_url_uses_demo_defaults() {
    let url = build_url("", "");
    assert!(url.starts_with(API_URL));
    assert!(url.contains("wskey=api2demo"), "url: {url}");
    assert!(url.contains("sort=random"));
    assert!(url.contains("reusability=open"));
    assert!(url.contains("media=true"));
    assert!(url.contains("type=IMAGE"));
    // Default query is percent-encoded, not raw
    assert!(url.contains("query=%28painting%20OR%20watercolor"), "url: {url}");
    assert!(!url.contains(' '), "no raw spaces allowed: {url}");
}

#[test]
fn build_url_honors_overrides() {
    let url = build_url("my-key", "sea forest");
    assert!(url.contains("wskey=my-key"));
    assert!(url.contains("query=sea%20forest"));
    assert!(!url.contains("painting"), "custom keyword replaces the default query");
}

#[test]
fn build_url_is_exact() {
    assert_eq!(
        build_url(" k ", "x"),
        "https://api.europeana.eu/record/v2/search.json?wskey=k&query=x&sort=random&rows=30\
         &profile=minimal&reusability=open&media=true&completeness=%5B1%20TO%2010%5D\
         &collection=art&type=IMAGE&img_color=true&img_size=extra_large&img_ratio=landscape"
    );
    let mut s = SourceSettings::default();
    s.set("query", Json::Str("x".to_string()));
    s.set("api_key", Json::Str("k".to_string()));
    assert_eq!(EuropeanaSource.request_url(&s), build_url("k", "x"));
}

#[test]
fn parses_real_fixture_provider_as_author() {
    let json = doc(EUROPEANA);
    let r = parse_europeana(&json).unwrap();
    assert_eq!(r.image_url, "https://example.org/images/plant-study.jpg");
    assert_eq!(r.title, "Plant Study");
    // No dcCreator → dataProvider becomes the credit
    assert_eq!(r.copyright.as_deref(), Some("Art Collection of the University"));
    assert_eq!(r.extra.get("source").unwrap(), "https://example.org/records/1");
    assert_eq!(r.extra.get("dedup-id").unwrap(), "/990/item_EXAMPLE0001");
    assert_eq!(
        r.extra.get("license").unwrap(),
        "http://creativecommons.org/licenses/by-sa/4.0/"
    );
}

#[test]
fn prefers_creator_over_provider() {
    // Second item: filter only that one
    let json = match doc(EUROPEANA) {
        Json::Object(mut map) => {
            let second = match map.get("items") {
                Some(items) => item(items, 1).copy(),
                None => panic!("no items"),
            };
            map.insert("items", Json::List(vec![second]));
            Json::Object(map)
        }
        _ => panic!("not an object"),
    };
    let r = parse_europeana(&json).unwrap();
    assert_eq!(r.copyright.as_deref(), Some("Jane Painter (Attributed to)"));
    assert_eq!(r.title, "The Old Castle");
    assert_eq!(
        r.extra.get("description").unwrap(),
        "A landscape with a ruined castle."
    );
}

#[test]
fn creator_that_is_a_url_is_skipped() {
    let json = doc(r#"{
        "items": [{
            "id": "/x/1",
            "title": ["T"],
            "dcCreator": ["https://example.org/artist-page", "Real Artist"],
            "dataProvider": ["Museum"],
            "edmIsShownBy": ["https://example.org/a.jpg"]
        }]
    }"#);
    let r = parse_europeana(&json).unwrap();
    assert_eq!(r.copyright.as_deref(), Some("Real Artist"));
}

#[test]
fn skips_item_without_image() {
    let json = doc(r#"{
        "items": [
            { "id": "/x/no-img", "title": ["No image"], "edmIsShownBy": [] },
            { "id": "/x/ok", "title": ["Has image"],
              "edmIsShownBy": ["https://example.org/ok.jpg"],
              "dataProvider": ["Museum"] }
        ]
    }"#);
    let r = parse_europeana(&json).unwrap();
    assert_eq!(r.image_url, "https://example.org/ok.jpg");
    assert_eq!(r.extra.get("dedup-id").unwrap(), "/x/ok");
}

#[test]
fn europeana_missing_items_is_error() {
    assert!(parse_europeana(&doc("{}")).is_err());
    assert!(parse_europeana(&doc(r#"{ "items": [] }"#)).is_err());
    assert!(parse_europeana(&doc(r#"{ "items": [{ "title": ["x"] }] }"#)).is_err());
}

#[test]
fn api_error_is_reported() {
    let json = doc(r#"{
        "success": false,
        "error": "API key is invalid",
        "message": "Please register for an API key"
    }"#);
    let err = ensure_success(&json).unwrap_err().message();
    // The human-readable `message` is surfaced (not the machine `error`).
    assert!(err.contains("register for an API key"), "err: {err}");
    assert!(ensure_success(&doc(r#"{ "success": true }"#)).is_ok());
}

#[test]
fn europeana_details() {
    let long = "x".repeat(2500);
    let text = format!(
        r#"{{"items":[{{"edmIsShownBy":["","u"],"title":["a","b",""],"guid":"g",
            "dcDescription":["  {long} "],"dcCreator":["http://a"]}}]}}"#
    );
    let r = parse_europeana_titled(&doc(&text), "none").unwrap();
    assert_eq!(r.image_url, "u");
    assert_eq!(r.title, "b");
    assert_eq!(r.copyright, None);
    assert_eq!(r.extra.get("description").unwrap().len(), 2000);
    assert_eq!(r.extra.get("source").unwrap(), "g");
    assert!(!r.extra.contains_key("author"));
    let r = parse_europeana_titled(&doc(r#"{"items":[{"edmIsShownBy":["u"]}]}"#), "none").unwrap();
    assert_eq!(r.title, "none");
    assert!(r.extra.entries.is_empty());
    let e = EuropeanaSource.read_reply(br#"{"success":false}"#).unwrap_err();
    assert_eq!(e.message(), "Europeana API error: unknown error");
    assert_eq!(EuropeanaSource.read_reply(EUROPEANA.as_bytes()).unwrap().title, "Plant Study");
}

// ---------------------------------------------------------------- NASA

const NASA: &str = r#"{"copyright":"Tom Burnett","date":"2026-08-03","explanation":"Vaporizing meteors and the Lacerta nebula.","hdurl":"https://apod.nasa.gov/apod/image/2608/MeteorPhotobombsLacerta_1024.jpg","media_type":"image","service_version":"v1","title":"Vaporizing Meteor Photobombs the Lacerta Nebula","url":"https://apod.nasa.gov/apod/image/2608/MeteorPhotobombsLacerta_1080.jpg"}"#;

#[test]
fn nasa_parses_real_fixture() {
    let json = doc(NASA);
    let r = parse_apod(&json, true).unwrap();
    assert!(r.image_url.contains("_1024.jpg"));
    assert_eq!(r.title, "Vaporizing Meteor Photobombs the Lacerta Nebula");
    assert_eq!(r.copyright.as_deref(), Some("Tom Burnett"));
    assert!(r.extra.contains_key("summary"));
}

#[test]
fn non_hd_uses_regular_url() {
    let json = doc(NASA);
    let r = parse_apod(&json, false).unwrap();
    assert!(r.image_url.contains("_1080.jpg"));
}

#[test]
fn video_is_skipped() {
    let json = doc(r#"{"media_type": "video", "url": "https://x/y.mp4", "title": "v"}"#);
    assert!(parse_apod(&json, true).is_err());
}

#[test]
fn missing_url_is_error() {
    assert!(parse_apod(&doc(r#"{"media_type": "image", "title": "t"}"#), true).is_err());
}

#[test]
fn nasa_details() {
    let r = parse_apod(&doc(NASA), true).unwrap();
    assert_eq!(r.date, Some(today()));
    assert_eq!(r.extra.get("date").unwrap(), "2026-08-03");
    let r = parse_apod_titled(&doc(r#"{"url":"u","date":"2026-02-30"}"#), true, "none").unwrap();
    assert_eq!(r.image_url, "u");
    assert_eq!(r.title, "none");
    assert_eq!(r.date, None);
    let e = parse_apod(&doc(r#"{"media_type":"video"}"#), true).unwrap_err();
    assert_eq!(e.message_in("Skipped"), "Skipped: video");
    let mut s = SourceSettings::default();
    assert_eq!(
        NasaApodSource.request_url(&s),
        "https://api.nasa.gov/planetary/apod?api_key=DEMO_KEY&hd=true"
    );
    s.set("hd", Json::Bool(false));
    assert_eq!(
        NasaApodSource.request_url(&s),
        "https://api.nasa.gov/planetary/apod?api_key=DEMO_KEY&hd=false"
    );
    assert!(NasaApodSource
        .read_reply(NASA.as_bytes(), &s)
        .unwrap()
        .image_url
        .contains("_1080.jpg"));
}

// -------------------------------------------------------- Lorem Picsum

const PICSUM: &str = r#"[{"id":"1005","author":"Matthew Wiebe","width":4000,"height":6000,"url":"https://unsplash.com/photos/N7XodRrbzS0","download_url":"https://picsum.photos/id/1005/4000/6000"}]"#;

#[test]
fn parses_real_entry() {
    let entries = doc(PICSUM);
    let r = picsum::parse_entry(item(&entries, 0), 1920, 1080, "").unwrap();
    assert_eq!(r.image_url, "https://picsum.photos/id/1005/1920/1080");
    assert_eq!(r.title, "1005");
    assert_eq!(r.extra.get("summary").map(String::as_str), Some("Matthew Wiebe"));
    assert_eq!(
        r.extra.get("source").map(String::as_str),
        Some("https://unsplash.com/photos/N7XodRrbzS0")
    );
    assert!(r.date.is_none());
}

#[test]
fn effects_query_combines() {
    assert_eq!(effects_query(false, false), "");
    assert_eq!(effects_query(true, false), "?grayscale");
    assert_eq!(effects_query(false, true), "?blur");
    assert_eq!(effects_query(true, true), "?grayscale&blur");
}

#[test]
fn missing_id_is_error() {
    assert!(picsum::parse_entry(&doc(r#"{"author": "x"}"#), 1, 1, "").is_err());
}

#[test]
fn auto_size_falls_back() {
    assert_eq!(resolve_size(&SourceSettings::default()), (1920, 1080));
    let mut s = SourceSettings::default();
    s.set("width", Json::Int(2560));
    s.set("height", Json::Int(1440));
    assert_eq!(resolve_size(&s), (2560, 1440));
}

#[test]
fn picsum_draws_a_page_and_an_entry() {
    for _ in 0..50 {
        let (page, url) = PicsumSource.request_url();
        assert!(1 <= page && page <= 10);
        assert_eq!(url, format!("https://picsum.photos/v2/list?page={page}&limit=100"));
    }
    let mut s = SourceSettings::default();
    s.set("blur", Json::Bool(true));
    s.set("width", Json::Int(-4));
    let r = PicsumSource.read_reply(PICSUM.as_bytes(), &s, 3).unwrap();
    assert_eq!(r.image_url, "https://picsum.photos/id/1005/1920/1080?blur");
    let e = PicsumSource.read_reply(b"[]", &s, 3).unwrap_err();
    assert_eq!(e.message(), "Lorem Picsum list is empty on page 3");
    // A page beyond the last is replaced by the first.
    match PicsumSource.first_reply(b"[]", &s, 3) {
        PicsumStep::Retry(page, url) => {
            assert_eq!((page, url.as_str()), (1, "https://picsum.photos/v2/list?page=1&limit=100"))
        }
        PicsumStep::Done(_) => panic!("the fetch is not over"),
    }
    assert!(matches!(
        PicsumSource.first_reply(b"[]", &s, 1),
        PicsumStep::Done(Err(e)) if e.problem == FetchProblem::PicsumEmpty
    ));
    assert!(matches!(
        PicsumSource.first_reply(PICSUM.as_bytes(), &s, 3),
        PicsumStep::Done(Ok(r)) if r.title == "1005"
    ));
    let e = PicsumSource.read_reply(b"3", &s, 3).unwrap_err();
    assert_eq!(e.problem, FetchProblem::PicsumNotList);
}

// ----------------------------------------------------------- Spotlight

const SPOTLIGHT: &str = r#"{"batchrsp":{"ver":"1.0","items":[{"item":"{\"f\":\"raf\",\"v\":\"1.0\",\"rdr\":[{\"c\":\"CDMLite\",\"u\":\"DesktopSpotlightSurface\"}],\"ad\":{\"landscapeImage\":{\"asset\":\"https://res.public.onecdn.static.microsoft/creativeservice/example_3840x2160.jpg\"},\"portraitImage\":{\"asset\":\"https://res.public.onecdn.static.microsoft/creativeservice/example_1080x1920.jpg\"},\"iconLabel\":\"Learn more about this image\",\"iconHoverText\":\"Aerial view of Terceira\\r\\n© Marco Bottigelli / Moment / Getty Images\",\"title\":\"Aerial view of Terceira\",\"description\":\"This panorama shows terraced farmland nestled between small volcanic cones.\",\"copyright\":\"© Marco Bottigelli / Moment / Getty Images\"}}"}]}}"#;

#[test]
fn spotlight_parses_real_fixture() {
    let json = doc(SPOTLIGHT);
    let r = parse_spotlight(&json).unwrap();
    assert_eq!(r.title, "Aerial view of Terceira");
    assert_eq!(r.copyright.as_deref(), Some("© Marco Bottigelli / Moment / Getty Images"));
    assert!(r.image_url.contains("3840x2160.jpg"));
    assert!(r.extra.get("description").unwrap().contains("terraced farmland"));
}

#[test]
fn falls_back_to_portrait_url() {
    let json = doc(
        r#"{"batchrsp":{"items":[{"item":"{\"ad\":{\"title\":\"t\",\"portraitImage\":{\"asset\":\"https://example.com/p.jpg\"}}}"}]}}"#,
    );
    let r = parse_spotlight(&json).unwrap();
    assert_eq!(r.image_url, "https://example.com/p.jpg");
    assert_eq!(r.copyright, None);
}

#[test]
fn video_item_uses_preview_frame() {
    let json = doc(
        r#"{"batchrsp":{"items":[{"item":"{\"ad\":{\"title\":\"t\",\"isVideo\":\"true\",\"video\":{\"PreviewImagePath\":\"https://example.com/preview.jpg\"}}}"}]}}"#,
    );
    let r = parse_spotlight(&json).unwrap();
    assert_eq!(r.image_url, "https://example.com/preview.jpg");
}

#[test]
fn spotlight_missing_items_is_error() {
    assert!(parse_spotlight(&doc("{}")).is_err());
    assert!(parse_spotlight(&doc(r#"{"batchrsp": {"items": []}}"#)).is_err());
}

#[test]
fn unsupported_region_reports_api_error() {
    // Shape returned for RU etc.: HTTP 200, errors payload, no items.
    let json = doc(
        r#"{"batchrsp":{"errors":[{"code":2040,"msg":"Demand source returns error (Name: GN_ps, Error: No eligible content.)."}]}}"#,
    );
    let err = parse_spotlight(&json).unwrap_err().message();
    assert!(err.contains("missing items"));
    assert!(err.contains("No eligible content"));
}

#[test]
fn spotlight_reports_what_is_missing() {
    let problem = |inner: &str| {
        let json = doc(&format!(
            r#"{{"batchrsp":{{"items":[{{"item":{}}}]}}}}"#,
            equinox::json::print(&Json::Str(inner.to_string()))
        ));
        parse_spotlight_titled(&json, "t").unwrap_err().problem
    };
    assert_eq!(problem("{"), FetchProblem::SpotlightBadItem);
    let json = doc(r#"{"batchrsp":{"items":[{"item":"{"}]}}"#);
    assert_eq!(
        parse_spotlight_titled(&json, "t").unwrap_err().message(),
        "failed to parse Spotlight item: EOF while parsing an object at line 1 column 1"
    );
    assert_eq!(problem("{}"), FetchProblem::SpotlightNoAd);
    assert_eq!(problem(r#"{"ad":{}}"#), FetchProblem::SpotlightNoUrl);
    assert!(!has_items(&doc("{}")));
    assert!(has_items(&doc(SPOTLIGHT)));
}

#[test]
fn spotlight_request_and_retry() {
    let mut s = SourceSettings::default();
    let base = "https://fd.api.iris.microsoft.com/v4/api/selection?placement=88000820&bcnt=1";
    assert_eq!(
        SpotlightSource.request_url(&s, "ru-ru"),
        format!("{base}&country=RU&fmt=json&locale=ru-ru")
    );
    assert_eq!(
        SpotlightSource.request_url(&s, "bo"),
        format!("{base}&country=CN&fmt=json&locale=zh-CN")
    );
    let empty = br#"{"batchrsp":{}}"#;
    match SpotlightSource.first_reply(&s, "ru-RU", empty, today()) {
        SpotlightStep::Retry(url) => {
            assert_eq!(url, format!("{base}&country=US&fmt=json&locale=en-US"))
        }
        SpotlightStep::Done(_) => panic!("not retried"),
    }
    match SpotlightSource.first_reply(&s, "en", empty, today()) {
        SpotlightStep::Retry(_) => panic!("retried"),
        SpotlightStep::Done(r) => {
            assert_eq!(r.unwrap_err().problem, FetchProblem::SpotlightNoItems)
        }
    }
    s.set("country", Json::Str("JP".to_string()));
    match SpotlightSource.first_reply(&s, "ru-RU", SPOTLIGHT.as_bytes(), today()) {
        SpotlightStep::Retry(_) => panic!("retried"),
        SpotlightStep::Done(r) => assert_eq!(r.unwrap().date, Some(today())),
    }
}

// ----------------------------------------------------------- Wikimedia

const POTD: &str = r#"{
    "query": {
        "pages": {
            "151974955": {
                "pageid": 151974955,
                "ns": 6,
                "title": "File:Rom (IT), Brucke -- 2024 -- 0732.jpg",
                "imagerepository": "local",
                "imageinfo": [{
                    "thumburl": "https://upload.wikimedia.org/wikipedia/commons/thumb/2/27/x/1920px-x.jpg",
                    "thumbwidth": 1920,
                    "url": "https://upload.wikimedia.org/wikipedia/commons/2/27/x.jpg",
                    "extmetadata": {
                        "ObjectName": { "value": "Rom (IT), Brucke -- 2024 -- 0732" },
                        "ImageDescription": { "value": "Ponte Vittorio Emanuele II (bridge) in Rome at the blue hour." },
                        "Artist": { "value": "Anil Öztas" },
                        "LicenseShortName": { "value": "CC BY 4.0" },
                        "Credit": { "value": "Own work, anil-oeztas.de" }
                    }
                }]
            }
        }
    }
}"#;

#[test]
fn wikimedia_parses_real_fixture() {
    let json = doc(POTD);
    let r = parse_potd(&json).unwrap();
    assert!(r.image_url.contains("1920px-"));
    assert_eq!(r.copyright.as_deref(), Some("Anil Öztas"));
    assert_eq!(r.extra.get("license").map(String::as_str), Some("CC BY 4.0"));
    assert!(r.title.contains("Ponte Vittorio"));
}

#[test]
fn missing_imageinfo_is_error() {
    let json = doc(r#"{"query": {"pages": {}}}"#);
    assert!(parse_potd(&json).is_err());
}

#[test]
fn strips_html_from_extmetadata() {
    // Realistic extmetadata values (2026-09 POTD): inline links, <bdi>,
    // <span> and entities.
    let desc = "Café and restaurant “Marienhöhe”, <a href=\"https://en.wikipedia.org/wiki/Norderney\" class=\"extiw\" title=\"en:Norderney\">Norderney</a>, Germany";
    assert_eq!(
        strip_html(desc),
        "Café and restaurant “Marienhöhe”, Norderney, Germany"
    );
    let artist = "<bdi><a href=\"https://www.wikidata.org/wiki/Q34788025\" class=\"extiw\" title=\"d:Q34788025\"><span title=\"German photographer and mathematician\">Dietmar Rabich</span></a></bdi>";
    assert_eq!(strip_html(artist), "Dietmar Rabich");
    assert_eq!(strip_html("Tom &amp; Jerry"), "Tom & Jerry");
}

#[test]
fn clean_meta_strips_markup() {
    let info = doc(r#"{
        "extmetadata": {
            "Artist": {
                "value": "<bdi><a href=\"//x\">Anil Öztas</a></bdi>"
            },
            "LicenseShortName": { "value": "CC BY 4.0" },
            "Missing": { "value": "" }
        }
    }"#);
    assert_eq!(clean_meta(&info, "Artist").as_deref(), Some("Anil Öztas"));
    assert_eq!(clean_meta(&info, "LicenseShortName").as_deref(), Some("CC BY 4.0"));
    assert_eq!(clean_meta(&info, "Missing"), None);
}

#[test]
fn html_text_is_single_spaced() {
    assert_eq!(strip_html(" a\n\t b <br> c&nbsp;&nbsp;d "), "a b c d");
    assert_eq!(strip_html("&amp;lt;b&gt; &#39;x&#39; &quot;y&quot;"), "<b> 'x' \"y\"");
    assert_eq!(strip_html("<a"), "");
}

#[test]
fn wikimedia_reports_what_is_missing() {
    let problem = |text: &str| parse_potd_titled(&doc(text), "t").unwrap_err().problem;
    assert_eq!(problem("{}"), FetchProblem::PotdNoPage);
    assert_eq!(
        problem(r#"{"query":{"pages":{"1":{"imageinfo":[]}}}}"#),
        FetchProblem::PotdNoInfo
    );
    assert_eq!(
        problem(r#"{"query":{"pages":{"1":{"imageinfo":[{"thumburl":3,"url":"u"}]}}}}"#),
        FetchProblem::PotdNoUrl
    );
    let r = parse_potd_titled(
        &doc(r#"{"query":{"pages":{"1":{},"2":{"imageinfo":[{"url":"u"}]}}}}"#),
        "t",
    )
    .unwrap();
    assert_eq!(r.image_url, "u");
    assert_eq!(r.title, "t");
}

#[test]
fn wikimedia_request_and_reply() {
    let mut s = SourceSettings::default();
    s.set("width", Json::Int(100));
    assert_eq!(
        WikimediaPotdSource.request_url(&s, today()),
        "https://commons.wikimedia.org/w/api.php?action=query&format=json&generator=images\
         &titles=Template:Potd/2026-08-03&prop=imageinfo&iiprop=url|extmetadata&iiurlwidth=640"
    );
    let r = WikimediaPotdSource.read_reply(POTD.as_bytes(), today()).unwrap();
    assert_eq!(r.date, Some(today()));
    assert!(WikimediaPotdSource.read_reply(b"", today()).is_err());
}

// ------------------------------------------------------------ registry

#[test]
fn registry_order_and_lookup() {
    let ids: Vec<&str> = registry().iter().map(|s| s.id()).collect();
    assert_eq!(
        ids,
        vec!["bing", "spotlight", "nasa", "wikimedia", "earthview", "picsum", "europeana"]
    );
    assert_eq!(by_id("nasa"), Some(BuiltIn::Nasa));
    assert_eq!(by_id("none"), None);
    let daily: Vec<bool> = registry().iter().map(|s| s.daily()).collect();
    assert_eq!(daily, vec![true, false, true, true, false, false, false]);
    assert_eq!(BuiltIn::EarthView.display_name(), "Google Earth");
    assert_eq!(BuiltIn::Picsum.display_name(), "Lorem Picsum");
    assert_eq!(BuiltIn::Spotlight.name(), ("Windows Spotlight", true));
    assert_eq!(BuiltIn::EarthView.name(), ("Google Earth", false));
}

#[test]
fn settings_of_a_source() {
    let labels: Vec<String> = ["Gebiet", "Auto", "Auflösung", "Verlauf"]
        .iter()
        .map(|s| s.to_string())
        .collect();
    let specs = BuiltIn::Bing.settings_in(&labels, "zh");
    assert_eq!(specs.len(), 3);
    assert_eq!(specs[0].key(), "mkt");
    assert_eq!(specs[0].label(), "Gebiet");
    match &specs[0] {
        SettingSpec::Choice { choices, default, .. } => {
            assert_eq!(choices.len(), 12);
            assert_eq!(choices[0], ("auto", "Auto (zh-CN)".to_string()));
            assert_eq!(*default, "auto");
        }
        _ => panic!("not a choice"),
    }
    match &specs[2] {
        SettingSpec::Int { default, min, max, .. } => assert_eq!((*default, *min, *max), (0, 0, 7)),
        _ => panic!("not a number"),
    }
    for s in registry() {
        assert_eq!(s.settings("en-US").len(), s.settings_in(&vec![String::new(); s.messages().len()], "en-US").len());
    }
    assert!(BuiltIn::EarthView.settings("en").is_empty());
}

#[test]
fn settings_fall_back_to_the_default() {
    let mut s = SourceSettings::default();
    s.set("a", Json::Str("x".to_string()));
    s.set("b", Json::Int(3));
    s.set("c", Json::Bool(true));
    assert_eq!(s.get_str("a", "d"), "x");
    assert_eq!(s.get_str("b", "d"), "d");
    assert_eq!(s.get_i64("b", 7), 3);
    assert_eq!(s.get_i64("c", 7), 7);
    assert!(s.get_bool("c", false));
    assert!(!s.get_bool("zz", false));
    s.set("b", Json::Large(u64::MAX));
    assert_eq!(s.get_i64("b", 7), 7);
}
