//! The user interface, and the texts, paths, days and documents below it.

use equinox::autostart::{Host, Step, Unit, UnitState};
use equinox::config::Config;
use equinox::date::{day_of_timestamp, earlier, Date};
use equinox::json::{parse, parse_bytes, print, Json, JsonMap};
use equinox::path::{extension, file_name, file_stem, join, parent, with_extension};
use equinox::source::{BuiltIn, SettingSpec, SourceSettings, TextMap};
use equinox::storage::ImageMeta;
use equinox::text::{
    comes_before, decimal_of_int, has_text, lines_of, lowered, parse_integer, replaced, split_on,
    trimmed, uppered,
};
use equinox::ui::captions::{caption, caption_for, display_path, grid_description};
use equinox::ui::layout::{
    carousel_to_entry, fixed_extent, monitor_size, nav_state, primary_monitor, should_relayout,
    texture_window, tile_size, Geometry, TextureChange,
};
use equinox::ui::preferences::{
    auto_fill_picsum_size, change_mode, current_mode, initial_value, language_values,
    login_switch, mode_values, selected, spawn_background, start_daemon, switch_backend,
    systemd_row, Initial, LoginSwitch, ModeChange, SwitchStep,
};
use equinox::ui::setup::{default_interval, finish, keeps_waiting, store_choices, SourceChoice};
use equinox::ui::timeline::{
    counted, fmt_interval, kind_message, meta_of_entry, position_text, split_interval, task_label,
    title_of_entry, Icon,
};
use equinox::ui::wallpaper::{
    clicked_source, image_concerns_page, is_pick, mode_message, next_mode, source_slot, start_index,
    switch_source, SwitchTo,
};

// -------------------------------------------------------------- layout

#[test]
fn tiles_fill_the_grid() {
    assert_eq!(tile_size(1), (2, 220));
    assert_eq!(tile_size(700), (3, 220));
    assert_eq!(tile_size(1000), (4, 238));
    assert_eq!(tile_size(4000), (6, 656));
    assert!(should_relayout(268, 260) && should_relayout(252, 260));
    assert!(!should_relayout(267, 260));
}

#[test]
fn pages_and_textures() {
    assert_eq!(nav_state(0, 0), (false, false));
    assert_eq!(nav_state(3, 0), (false, true));
    assert_eq!(nav_state(3, 2), (true, false));
    assert_eq!(carousel_to_entry(2, 1), Some(1));
    assert_eq!(carousel_to_entry(2, 2), None);
    let mut loaded = vec![true, false, false, false, false, true];
    let changes = texture_window(2, 1, &mut loaded);
    assert_eq!(
        changes,
        vec![
            TextureChange::Release,
            TextureChange::Load,
            TextureChange::Load,
            TextureChange::Load,
            TextureChange::Keep,
            TextureChange::Release,
        ]
    );
    assert_eq!(loaded, vec![false, true, true, true, false, false]);
}

#[test]
fn primary_monitor_shows_the_origin() {
    let right = Geometry { x: 1920, y: 0, width: 1920, height: 1080 };
    let main = Geometry { x: 0, y: -10, width: 1920, height: 1080 };
    assert_eq!(primary_monitor(&vec![right, main]), Some(1));
    assert_eq!(primary_monitor(&vec![right]), Some(0));
    assert_eq!(primary_monitor(&vec![]), None);
    assert_eq!(monitor_size(main), Some((1920, 1080)));
    assert_eq!(monitor_size(Geometry { width: 0, ..main }), None);
    assert_eq!(fixed_extent(3, 4, true), Some(3));
    assert_eq!(fixed_extent(3, 4, false), Some(4));
    assert_eq!(fixed_extent(0, 4, false), None);
}

// ------------------------------------------------------------ captions

fn meta(title: &str, extra: &[(&str, &str)], copyright: Option<&str>) -> ImageMeta {
    let mut map = TextMap::new();
    for (k, v) in extra {
        map.insert(k, v.to_string());
    }
    ImageMeta {
        source: String::new(),
        title: title.into(),
        copyright: copyright.map(|c| c.to_string()),
        url: String::new(),
        downloaded_at: 0,
        hash: String::new(),
        date: "2026-08-03".into(),
        width: 0,
        height: 0,
        extra: map,
    }
}

#[test]
fn captions_of_images() {
    let m = meta("", &[("summary", "S"), ("description", "D")], Some("C"));
    assert_eq!(caption_for("/p/a.jpg", Some(&m), "-"), ("a".into(), "D".into()));
    assert_eq!(
        caption("/p/a.jpg", Some(&m), "-"),
        ("a".into(), "D\nC".into(), "2026-08-03".into())
    );
    let m = meta("T", &[("description", "")], Some("C"));
    assert_eq!(caption_for("x", Some(&m), "-"), ("T".into(), "C".into()));
    assert_eq!(grid_description(Some(&m)), "");
    let m = meta("T", &[], Some("C"));
    assert_eq!(grid_description(Some(&m)), "C");
    assert_eq!(grid_description(None), "");
    assert_eq!(caption("/", None, "Untitled").0, "Untitled");
    assert_eq!(display_path("/p/a.png", true), "/p/a_thumb.jpg");
    assert_eq!(display_path("/p/a.png", false), "/p/a.png");
}

// ------------------------------------------------------ wallpaper page

#[test]
fn carousel_starts_at_the_wallpaper() {
    let files: Vec<String> = ["new", "mid", "old"].iter().map(|s| s.to_string()).collect();
    assert_eq!(start_index(&files, "old"), 0);
    assert_eq!(start_index(&files, "new"), 2);
    assert_eq!(start_index(&files, "none"), 2);
    assert_eq!(start_index(&vec![], "none"), 0);
}

#[test]
fn sources_switch_in_order() {
    assert_eq!(source_slot(""), (0, false, true));
    assert_eq!(source_slot("bing"), (1, true, true));
    assert_eq!(source_slot("europeana"), (7, true, false));
    assert_eq!(source_slot("gone"), (1, true, true));
    assert_eq!(switch_source("", None, false), SwitchTo::Nowhere);
    assert_eq!(switch_source("", None, true), SwitchTo::Source(BuiltIn::Bing));
    assert_eq!(switch_source("bing", None, false), SwitchTo::NoSource);
    assert_eq!(switch_source("bing", None, true), SwitchTo::Source(BuiltIn::Spotlight));
    assert_eq!(switch_source("europeana", None, true), SwitchTo::Nowhere);
    assert_eq!(
        switch_source("gone", Some("nasa"), false),
        SwitchTo::Source(BuiltIn::Spotlight)
    );
    assert_eq!(switch_source("gone", None, false), SwitchTo::NoSource);
}

#[test]
fn modes_go_round() {
    assert_eq!(next_mode(next_mode(next_mode("latest"))), "latest");
    assert_eq!(next_mode("latest"), "random");
    assert_eq!(next_mode("?"), "latest");
    assert_eq!(clicked_source("bing", "nasa", true).as_deref(), Some("bing"));
    assert_eq!(clicked_source("", "nasa", true).as_deref(), Some("nasa"));
    assert_eq!(clicked_source("", "nasa", false), None);
    assert_eq!(clicked_source("", "", true), None);
    assert_eq!(mode_message("manual"), "Manual");
    assert_eq!(mode_message("?"), "Latest");
    assert!(is_pick(false, false, "a", "b"));
    assert!(!is_pick(true, false, "a", "b") && !is_pick(false, true, "a", "b"));
    assert!(!is_pick(false, false, "a", "a"));
    assert!(image_concerns_page("", "x") && image_concerns_page("x", "x"));
    assert!(!image_concerns_page("y", "x"));
}

// ------------------------------------------------------------ timeline

#[test]
fn timeline_lines() {
    assert_eq!(Icon::of_entry("skipped", true, true), Icon::Dash);
    assert_eq!(Icon::of_entry("manual", false, true), Icon::Clock);
    assert_eq!(Icon::of_entry("manual", true, true), Icon::Check);
    assert_eq!(Icon::of_entry("manual", true, false), Icon::Cross);
    assert_eq!(Icon::of_plan(false), Icon::Dash);
    assert_eq!((Icon::Cross.name(), Icon::Cross.css()), ("window-close-symbolic", "error"));
    assert_eq!(split_interval(45), (45, "sec"));
    assert_eq!(split_interval(300), (5, "min"));
    assert_eq!(split_interval(7199), (1, "h"));
    assert_eq!(split_interval(200_000), (2, "d"));
    assert_eq!(fmt_interval(300, "min"), "5min");
    assert_eq!(kind_message("skipped"), "Manual");
    assert_eq!(kind_message("apply"), "Apply");
    assert_eq!(title_of_entry("L", "scheduled", true, 2, "(catch-up)"), "L (catch-up) (2)");
    assert_eq!(title_of_entry("L", "skipped", true, 2, "(catch-up)"), "L");
    assert_eq!(meta_of_entry("t", "k", false, false, 1, 3, " ok"), "t · k · 1/3");
    assert_eq!(meta_of_entry("t", "k", true, true, 3, 3, " ok"), "t · k ok");
    assert_eq!(task_label("L", true, 1, 3), "L (1/3)");
    assert_eq!(task_label("L", false, 1, 3), "L");
    assert_eq!(counted(12, "images"), "12 images");
    assert_eq!(position_text(0, 7), "1 / 7");
}

// --------------------------------------------------------- preferences

const NONE: UnitState = UnitState { installed: false, active: false, enabled: false };

const BARE: Host = Host { systemd: true, autostart: false, current: NONE, legacy: NONE };

#[test]
fn preferences_follow_the_host() {
    let up = UnitState { installed: true, active: true, enabled: false };
    let hosted = Host { current: up, ..BARE };
    let legacy = Host { legacy: up, ..BARE };
    assert_eq!(current_mode(&BARE, "supervisor"), "supervisor");
    assert_eq!(current_mode(&legacy, "supervisor"), "systemd");
    assert_eq!(mode_values(false), vec!["supervisor"]);
    assert_eq!(mode_values(true), vec!["supervisor", "systemd"]);
    assert_eq!(selected(&mode_values(true), "systemd"), 1);
    assert_eq!(selected(&language_values(), "bo"), 7);
    assert_eq!(selected(&language_values(), "xx"), 0);
    assert_eq!(change_mode(&Host { systemd: false, ..BARE }, "systemd"), ModeChange::Ignore);
    assert_eq!(change_mode(&hosted, "systemd"), ModeChange::Remember);
    assert_eq!(change_mode(&legacy, "systemd"), ModeChange::SwitchOver);
    assert_eq!(change_mode(&BARE, "supervisor"), ModeChange::Remember);
    assert_eq!(change_mode(&hosted, "supervisor"), ModeChange::SwitchOver);
    let row = systemd_row(&hosted);
    assert_eq!((row.deploy, row.toggle, row.state), ("Uninstall", "Stop", "Installed and running"));
    let row = systemd_row(&BARE);
    assert_eq!((row.deploy, row.toggle, row.state), ("Install", "Start", "Not installed"));
    assert_eq!(login_switch("systemd", &hosted, true), (LoginSwitch::Unit, false));
    assert_eq!(login_switch("supervisor", &hosted, true), (LoginSwitch::Entry, true));
}

#[test]
fn hosting_switches_without_a_race() {
    let steps = switch_backend(&BARE, "systemd");
    assert!(matches!(steps[0], SwitchStep::KillStandalone));
    assert!(matches!(steps[1], SwitchStep::Wait));
    assert_eq!(steps.len(), 8);
    let steps = switch_backend(&BARE, "supervisor");
    assert!(matches!(steps[3], SwitchStep::SpawnSupervisor));
    let steps = switch_backend(&Host { systemd: false, ..BARE }, "systemd");
    assert!(steps.len() == 3 && matches!(steps[2], SwitchStep::Unavailable));
    assert_eq!(start_daemon(&BARE, "supervisor"), None);
    assert_eq!(
        start_daemon(&BARE, "systemd").unwrap()[2..],
        [
            Step::WriteUnit,
            Step::Reload,
            Step::Enable(Unit::Current),
            Step::Start(Unit::Current),
        ]
    );
    assert_eq!(
        spawn_background("b", Some("app"), false, None),
        vec![vec!["flatpak", "run", "--command=b", "app"]]
    );
    assert_eq!(spawn_background("b", Some("app"), true, None), vec![vec!["/app/bin/b"]]);
    assert_eq!(
        spawn_background("b", None, false, Some("/i")),
        vec![vec!["/i/usr/bin/b"], vec!["b"]]
    );
}

#[test]
fn controls_start_with_the_settings() {
    let mut s = SourceSettings::default();
    s.set("n", Json::Int(99));
    s.set("c", Json::Str("y".to_string()));
    let int = SettingSpec::Int { key: "n", label: String::new(), default: 1, min: 0, max: 7 };
    assert!(matches!(initial_value(&s, &int), Initial::Number(7)));
    let choice = SettingSpec::Choice {
        key: "c",
        label: String::new(),
        choices: vec![("x", String::new()), ("y", String::new())],
        default: "x",
    };
    assert!(matches!(initial_value(&s, &choice), Initial::Choice(1)));
    let text = SettingSpec::String { key: "t", label: String::new(), default: "d" };
    assert!(matches!(initial_value(&s, &text), Initial::Text(t) if t == "d"));
    let flag = SettingSpec::Bool { key: "f", label: String::new(), default: true };
    assert!(matches!(initial_value(&s, &flag), Initial::Flag(true)));
}

#[test]
fn picsum_size_is_filled_once() {
    let mut c = Config::new();
    c.set_source_setting("picsum", "height", Json::Int(5));
    auto_fill_picsum_size(&mut c, 1920, 1080);
    let s = c.settings_for("picsum");
    assert_eq!((s.get_i64("width", 0), s.get_i64("height", 0)), (1920, 5));
}

#[test]
fn setup_stores_choices_and_leaves_the_wallpaper() {
    let mut c = Config::new();
    c.set_wallpaper_source("bing");
    let choices = vec![
        SourceChoice { source: BuiltIn::Bing, enabled: true, interval: 1 },
        SourceChoice { source: BuiltIn::Nasa, enabled: false, interval: 7200 },
    ];
    assert_eq!(store_choices(&mut c, &choices), vec![BuiltIn::Bing]);
    assert!(c.update_enabled("bing") && !c.update_enabled("nasa"));
    assert_eq!((c.update_interval("bing"), c.update_interval("nasa")), (300, 7200));
    assert_eq!(finish(&mut c, &BARE, "supervisor", true), vec![Step::WriteAutostart]);
    assert_eq!(c.wallpaper_source(), "");
    assert!(c.setup_done() && c.autostart() && c.run_mode() == "supervisor");
    assert_eq!(finish(&mut c, &BARE, "systemd", true).len(), 6);
    assert_eq!(default_interval(BuiltIn::Spotlight), 36000);
    assert_eq!(default_interval(BuiltIn::Bing), 3600);
    assert!(keeps_waiting(false, 19) && !keeps_waiting(false, 20) && !keeps_waiting(true, 0));
}

// ------------------------------------------------ texts, paths, days

#[test]
fn texts() {
    assert_eq!(trimmed("\u{3000} a b\t\r\n"), "a b");
    assert_eq!(lowered("ÄBC"), "Äbc");
    assert_eq!(uppered("äbc"), "äBC");
    assert_eq!(split_on("a,,b", ','), vec!["a", "", "b"]);
    assert_eq!(lines_of("a\r\n\nb\r"), vec!["a", "", "b\r"]);
    assert_eq!(replaced("aaaa", "aa", "b"), "bb");
    assert!(has_text("abc", "bc") && !has_text("abc", "cb") && has_text("", ""));
    assert!(comes_before("a", "b") && comes_before("", "a") && !comes_before("a", "a"));
    assert!(comes_before("a", "aa") && comes_before("z", "é"));
    for n in [0, 7, -1, 10, i64::MIN, i64::MAX] {
        assert_eq!(decimal_of_int(n), n.to_string());
        assert_eq!(parse_integer(&n.to_string()), Some(n));
    }
    for s in ["", "-", "+", "1a", " 1", "9223372036854775808", "--1"] {
        assert_eq!(parse_integer(s), s.parse::<i64>().ok());
    }
    assert_eq!(parse_integer("+007"), Some(7));
}

#[test]
fn paths_agree_with_std() {
    for p in [
        "", "/", "a", "a.b", "a.b.c", ".a", "..", ".", "a/", "a/.", "a/b.c", "/a/b.c/", "a//b.c",
        "./x", "a/..", "x.", "/x.y", "a/./b.txt", "/a",
    ] {
        let q = std::path::Path::new(p);
        assert_eq!(file_name(p).as_deref(), q.file_name().and_then(|s| s.to_str()), "{p}");
        assert_eq!(extension(p).as_deref(), q.extension().and_then(|s| s.to_str()), "{p}");
        assert_eq!(file_stem(p).as_deref(), q.file_stem().and_then(|s| s.to_str()), "{p}");
        assert_eq!(
            parent(p),
            q.parent().map(|d| d.to_str().unwrap().to_string()),
            "{p}"
        );
        for e in ["json", ""] {
            assert_eq!(with_extension(p, e), q.with_extension(e).to_str().unwrap(), "{p}");
        }
        for n in ["x", "/x", ""] {
            assert_eq!(join(p, n), q.join(n).to_str().unwrap(), "{p} {n}");
        }
    }
}

#[test]
fn days() {
    let d = Date { year: 2026, month: 8, day: 3 };
    assert_eq!((d.to_iso().as_str(), d.to_compact().as_str()), ("2026-08-03", "20260803"));
    assert_eq!(Date { year: -1, month: 1, day: 2 }.to_iso(), "-0001-01-02");
    assert_eq!(Date { year: 12345, month: 1, day: 2 }.to_iso(), "+12345-01-02");
    assert_eq!(earlier(d, 3), Some(Date { year: 2026, month: 7, day: 31 }));
    assert_eq!(earlier(Date { year: -262143, month: 1, day: 1 }, 1), None);
    assert_eq!(day_of_timestamp(0), Some(Date { year: 1970, month: 1, day: 1 }));
    assert_eq!(day_of_timestamp(-1), Some(Date { year: 1969, month: 12, day: 31 }));
    assert_eq!(day_of_timestamp(1_785_888_000), Some(Date { year: 2026, month: 8, day: 5 }));
    assert_eq!(day_of_timestamp(i64::MAX), None);
}

#[test]
fn documents() {
    let text = r#"{"b":[1,-2,18446744073709551615,1.5,null],"a":{"x":"é"}}"#;
    let doc = parse(text).unwrap();
    assert_eq!(parse_bytes(text.as_bytes()).map(|d| print(&d)), Ok(print(&doc)));
    let printed = print(&doc);
    assert!(printed.starts_with("{\n  \"a\": {\n    \"x\": \"é\"\n  },\n  \"b\": ["));
    assert_eq!(print(&parse(&printed).unwrap()), printed);
    assert_eq!(print(&doc.copy()), printed);
    // Numbers with few digits come back as they are, others can be read.
    for number in ["1.5", "-0.0", "0.00001", "123456789012.345", "0.1", "100000000000000.0"] {
        assert_eq!(print(&parse(number).unwrap()), number);
    }
    for number in ["1e300", "0.1234567890123456789", "5e-324", "-1.5e+22", "1e16"] {
        assert!(parse(&print(&parse(number).unwrap())).is_ok());
    }
    assert_eq!(print(&Json::Decimal("x".to_string())), "null");
    assert_eq!(print(&Json::Decimal("2.50".to_string())), "2.5");
    assert!(parse(&print(&Json::Decimal("9".repeat(300)))).is_ok());
    assert!(parse("{} x").is_err() && parse_bytes(b"\xff").is_err());
    assert_eq!(parse("").unwrap_err(), "EOF while parsing a value at line 1 column 0");
    // A document may nest 127 levels deep.
    let nested = |n: usize| format!("{}{}", "[".repeat(n), "]".repeat(n));
    assert!(parse(&nested(127)).is_ok() && parse(&nested(128)).is_err());
    let deep = parse(&nested(127)).unwrap();
    assert_eq!(print(&parse(&print(&deep)).unwrap()), print(&deep));
    let mut m = JsonMap::new();
    for k in ["b", "a", "c", "a"] {
        m.insert(k, Json::Str(k.to_string()));
    }
    let keys: Vec<&str> = m.members.iter().map(|(k, _)| k.as_str()).collect();
    assert_eq!(keys, vec!["a", "b", "c"]);
    assert!(m.get("d").is_none());
}
