//! Autostart, configuration, history, replies, locale and storage.

use equinox::autostart::{
    autostart_content, autostart_enabled, autostart_file, autostart_needs_rewrite,
    deactivate_systemd_service, deploy_unit, in_flatpak, install_systemd_service,
    refresh_autostart, set_autostart, set_systemd_boot, start_failure, supervisor_candidates,
    supervisor_exec, systemd_available, systemd_boot_enabled, systemd_enabled, systemd_running,
    systemd_stop, systemd_unit_installed, unit_content, unit_path, uninstall_systemd_service, Host,
    Step, Unit, UnitState, AUTOSTART_ID, LEGACY_SERVICE,
};
use equinox::config::{clamp_interval, Config, MAX_UPDATE_INTERVAL, MIN_UPDATE_INTERVAL};
use equinox::date::Date;
use equinox::history::{History, HistoryEntry, MAX_ENTRIES};
use equinox::http::{ensure_ok, image_extension, is_image_content_type, HttpResponse};
use equinox::i18n::{locale_candidates, locale_fallback, system_locale};
use equinox::json::Json;
use equinox::source::{FetchResult, TextMap};
use equinox::storage::{content_hash, store_body_at, DirFile, Folder, ImageMeta, Storage};

// ----------------------------------------------------------- autostart

const OFF: UnitState = UnitState { installed: false, active: false, enabled: false };

const ON: UnitState = UnitState { installed: true, active: true, enabled: true };

#[test]
fn autostart_id_is_supervisor() {
    // The whole autostart story is built around the supervisor binary;
    // guard against accidental renames that would desync scripts/docs.
    assert_eq!(AUTOSTART_ID, "equinox-supervisor");
}

#[test]
fn legacy_service_name_is_daemon() {
    // The pre-supervisor unit name must stay recognised so upgraded
    // installs show the systemd service as installed.
    assert_eq!(LEGACY_SERVICE, "equinox-daemon.service");
}

#[test]
fn autostart_rewrite_detects_bare_command_and_hidden() {
    let abs = "/home/u/.local/bin/equinox-supervisor";
    // A bare `Exec=equinox-supervisor` (the pre-fix output) is stale.
    assert!(autostart_needs_rewrite(
        "[Desktop Entry]\nExec=equinox-supervisor\n",
        abs
    ));
    // Correct Exec, no Hidden → nothing to heal.
    assert!(!autostart_needs_rewrite(
        "[Desktop Entry]\nExec=/home/u/.local/bin/equinox-supervisor\n",
        abs
    ));
    // Flatpak form counts as resolved.
    let flatpak_cmd = "flatpak run --command=equinox-supervisor github.nwkyz.Equinox";
    assert!(!autostart_needs_rewrite(
        &format!("[Desktop Entry]\nExec={flatpak_cmd}\n"),
        flatpak_cmd
    ));
    assert!(autostart_needs_rewrite("", abs));
    // Hidden=true must be healed even when the Exec is already resolved:
    // KDE/GNOME do not run hidden autostart entries.
    assert!(autostart_needs_rewrite(
        "[Desktop Entry]\nExec=/home/u/.local/bin/equinox-supervisor\nHidden=true\n",
        abs
    ));
}

#[test]
fn autostart_entry_is_runnable_and_not_hidden() {
    // The written entry must reference the resolved command and must NOT
    // carry Hidden=true (that flag silently disables start-at-login on
    // KDE/GNOME — the exact bug reported on the VM).
    let content = autostart_content("/usr/bin/equinox-supervisor");
    assert!(content.contains("Exec=/usr/bin/equinox-supervisor"));
    assert!(!content.to_ascii_lowercase().contains("hidden=true"));
    assert!(!content.contains("Exec=equinox-supervisor\n"));
}

#[test]
fn supervisor_exec_resolves_absolute_or_bare() {
    let dirs = vec!["/usr/bin".to_string(), "/opt/bin/".to_string()];
    let places = supervisor_candidates(Some("/home/u/bin/equinox-gui"), &dirs);
    assert_eq!(
        places,
        vec![
            "/home/u/bin/equinox-supervisor",
            "/usr/bin/equinox-supervisor",
            "/opt/bin/equinox-supervisor",
        ]
    );
    // Inside a sandbox only the flatpak run form can reach the host.
    let exec = supervisor_exec(Some("app.Id"), &places, &vec![true, true, true]);
    assert!(exec.starts_with("flatpak run --command=equinox-supervisor"));
    assert_eq!(exec, "flatpak run --command=equinox-supervisor app.Id");
    let exec = supervisor_exec(Some(""), &places, &vec![false, true, true]);
    assert!(exec.ends_with("/equinox-supervisor"));
    assert!(exec.starts_with('/'));
    assert_eq!(exec, "/usr/bin/equinox-supervisor");
    // The last-resort bare name.
    assert_eq!(
        supervisor_exec(None, &places, &vec![false, false, false]),
        "equinox-supervisor"
    );
}

#[test]
fn written_entry_and_unit_are_exact() {
    let exec = "/usr/bin/equinox-supervisor";
    let content = autostart_content(exec);
    assert_eq!(
        content,
        "[Desktop Entry]\nType=Application\nName=Equinox background\n\
         Comment=Keep the Equinox wallpaper daemon running\n\
         Exec=/usr/bin/equinox-supervisor\nTerminal=false\nX-GNOME-Autostart-enabled=true\n"
    );
    assert!(!autostart_needs_rewrite(&content, exec));
    assert_eq!(
        unit_content(exec),
        "[Unit]\nDescription=Equinox wallpaper supervisor\nAfter=graphical-session.target\n\n\
         [Service]\nExecStart=/usr/bin/equinox-supervisor\nRestart=on-failure\nRestartSec=5\n\n\
         [Install]\nWantedBy=default.target\n"
    );
    assert_eq!(autostart_file("/c"), "/c/autostart/equinox-supervisor.desktop");
    assert_eq!(unit_path("/c", Unit::Legacy), "/c/systemd/user/equinox-daemon.service");
    assert_eq!(
        start_failure("a\nb\r\nc\nd\ne\nf\ng\n"),
        "systemd service failed to start:\na\nb\nc\nd\ne\nf"
    );
    assert_eq!(start_failure(""), "systemd service failed to start:\n");
}

#[test]
fn hosting_steps() {
    let host = Host { systemd: true, autostart: true, current: OFF, legacy: ON };
    assert!(autostart_enabled(&host) && systemd_enabled(&host) && systemd_running(&host));
    assert!(!systemd_unit_installed(&host) && !systemd_boot_enabled(&host));
    assert_eq!(
        install_systemd_service(&host).unwrap(),
        vec![
            Step::Stop(Unit::Legacy),
            Step::Disable(Unit::Legacy),
            Step::RemoveUnit(Unit::Legacy),
            Step::WriteUnit,
            Step::Reload,
            Step::RemoveAutostart,
            Step::Enable(Unit::Current),
            Step::Start(Unit::Current),
        ]
    );
    let bare = Host { systemd: false, autostart: false, current: ON, legacy: OFF };
    assert!(install_systemd_service(&bare).is_none());
    assert_eq!(
        uninstall_systemd_service(&bare),
        vec![
            Step::Stop(Unit::Current),
            Step::Disable(Unit::Current),
            Step::Stop(Unit::Legacy),
            Step::Disable(Unit::Legacy),
            Step::RemoveUnit(Unit::Current),
            Step::Reload,
        ]
    );
    assert_eq!(deploy_unit(&bare).len(), 4);
    assert_eq!(set_autostart(&bare, false), vec![]);
    assert_eq!(set_autostart(&bare, true), vec![Step::WriteAutostart]);
    assert_eq!(refresh_autostart(&host, "", "x"), vec![Step::WriteAutostart]);
    assert_eq!(refresh_autostart(&host, "Exec=x", "x"), vec![]);
    assert_eq!(refresh_autostart(&bare, "", "x"), vec![]);
    assert_eq!(systemd_stop(), vec![Step::Stop(Unit::Current)]);
    assert_eq!(
        deactivate_systemd_service(),
        vec![Step::Stop(Unit::Current), Step::Disable(Unit::Current)]
    );
    assert_eq!(set_systemd_boot(true), vec![Step::Enable(Unit::Current)]);
    assert_eq!(set_systemd_boot(false), vec![Step::Disable(Unit::Current)]);
    assert_eq!(
        Step::Enable(Unit::Current).command(),
        Some(("enable", Some("equinox-supervisor.service")))
    );
    assert_eq!(Step::Reload.command(), Some(("daemon-reload", None)));
    assert_eq!(Step::WriteUnit.command(), None);
    assert!(in_flatpak(Some("x")) && !in_flatpak(Some("")) && !in_flatpak(None));
    assert!(systemd_available(false, false, true) && !systemd_available(true, true, true));
}

// -------------------------------------------------------------- config

#[test]
fn clamps_interval() {
    assert_eq!(clamp_interval(3600), 3600);
    assert_eq!(clamp_interval(0), MIN_UPDATE_INTERVAL);
    assert_eq!(clamp_interval(-5), MIN_UPDATE_INTERVAL);
    assert_eq!(clamp_interval(i64::MAX), MAX_UPDATE_INTERVAL);
}

#[test]
fn config_defaults() {
    let c = Config::new();
    assert!(c.is_first_run());
    assert_eq!(c.wallpaper_source(), "");
    assert_eq!(c.original_wallpaper(), "");
    assert_eq!(c.wallpaper_mode(), "latest");
    assert_eq!(c.source_mode("bing"), "latest");
    assert_eq!(c.run_mode(), "supervisor");
    assert_eq!(c.language(), "auto");
    assert_eq!(c.backend(), "auto");
    assert_eq!(c.update_interval("bing"), 3600);
    assert_eq!(c.last_updated_at("bing"), 0);
    assert!(!c.update_enabled("bing") && !c.autostart() && !c.setup_done());
    assert!(!c.viewer_fullscreen() && !c.viewer_fill());
}

#[test]
fn config_reads_back_what_was_set() {
    let mut c = Config::new();
    c.set_wallpaper_source("nasa");
    assert!(!c.is_first_run());
    c.set_original_wallpaper("/o.jpg");
    c.set_wallpaper_mode("random");
    c.set_source_mode("bing", "manual");
    c.set_update_enabled("bing", true);
    c.set_update_interval("bing", 5);
    c.set_last_updated_at("bing", 1_700_000_000);
    c.set_autostart(true);
    c.set_run_mode("systemd");
    c.set_language("ja");
    c.set_setup_done(true);
    c.set_backend("kde");
    c.set_viewer_fullscreen(true);
    c.set_viewer_fill(true);
    c.set_source_setting("nasa", "hd", Json::Bool(false));
    // What was written is what is read.
    let text = c.to_text();
    let loaded = Config::load(Some(&text));
    assert!(!loaded.corrupt);
    for d in [&c, &loaded.config] {
        assert_eq!(d.wallpaper_source(), "nasa");
        assert_eq!(d.original_wallpaper(), "/o.jpg");
        assert_eq!(d.wallpaper_mode(), "random");
        assert_eq!(d.source_mode("bing"), "manual");
        assert_eq!(d.source_mode("nasa"), "random");
        assert!(d.update_enabled("bing") && !d.update_enabled("nasa"));
        assert_eq!(d.update_interval("bing"), 300);
        assert_eq!(d.last_updated_at("bing"), 1_700_000_000);
        assert!(d.autostart() && d.setup_done() && d.viewer_fullscreen() && d.viewer_fill());
        assert_eq!(d.run_mode(), "systemd");
        assert_eq!(d.language(), "ja");
        assert_eq!(d.backend(), "kde");
        assert!(!d.settings_for("nasa").get_bool("hd", true));
    }
    assert_eq!(loaded.config.to_text(), text);
}

#[test]
fn other_readers_see_what_was_set() {
    let mut first = Config::load(Some(r#"{"language":"ja","zoom":1.5,"autostart":true}"#)).config;
    first.set_wallpaper_source("nasa");
    let text = first.to_text();
    let second = Config::load(Some(&text)).config;
    assert_eq!(second.wallpaper_source(), "nasa");
    assert_eq!(second.language(), "ja");
    assert!(second.autostart() && text.contains("\"zoom\": 1.5"));
}

#[test]
fn config_text_is_sorted_and_indented() {
    let mut c = Config::new();
    c.set_language("en");
    c.set_autostart(true);
    assert_eq!(c.to_text(), "{\n  \"autostart\": true,\n  \"language\": \"en\"\n}");
}

#[test]
fn config_survives_odd_files() {
    let corrupt = Config::load(Some("{"));
    assert!(corrupt.corrupt && corrupt.config.is_first_run());
    let missing = Config::load(None);
    assert!(!missing.corrupt && missing.config.is_first_run());
    let list = Config::load(Some("[1]"));
    assert!(!list.corrupt && !list.config.is_first_run());
    // Values of another type read as the default; what stands under a source
    // and is no object is left alone.
    let mut odd = Config::load(Some(r#"{"language":3,"source-settings":{"bing":7}}"#)).config;
    assert_eq!(odd.language(), "auto");
    odd.set_source_mode("bing", "random");
    assert_eq!(odd.source_mode("bing"), "latest");
    assert!(odd.to_text().contains("\"bing\": 7"));
}

// ------------------------------------------------------------- history

fn entry(i: i64) -> HistoryEntry {
    HistoryEntry {
        file: format!("/tmp/img{i}.jpg"),
        source: "bing".into(),
        title: format!("Title {i}"),
        copyright: None,
        applied_at: 1_700_000_000 + i,
    }
}

fn temp_history() -> History {
    History::from_entries((0..3).map(entry).collect())
}

#[test]
fn push_dedupes_by_file() {
    let mut h = temp_history();
    let old_len = h.entries().len();
    h.push(entry(1)); // already present → moved to front, length unchanged
    assert_eq!(h.entries().len(), old_len);
    assert_eq!(h.entries()[0].file, "/tmp/img1.jpg");
}

#[test]
fn push_caps_at_max() {
    let mut h = History::from_entries(Vec::new());
    for i in 0..(MAX_ENTRIES as i64 + 50) {
        h.push(entry(i));
    }
    assert_eq!(h.entries().len(), MAX_ENTRIES);
    // Oldest entry dropped
    assert!(!h.entries().iter().any(|e| e.file == "/tmp/img0.jpg"));
}

#[test]
fn move_to_front_reorders() {
    let mut h = temp_history();
    assert!(h.move_to_front(2));
    assert_eq!(h.entries()[0].file, "/tmp/img2.jpg");
    assert_eq!(h.entries().len(), 3);
    assert!(!h.move_to_front(0) && !h.move_to_front(3));
}

#[test]
fn remove_drops_entry() {
    let mut h = temp_history();
    assert!(h.remove(1));
    assert_eq!(h.entries().len(), 2);
    assert!(!h.entries().iter().any(|e| e.file == "/tmp/img1.jpg"));
    assert!(!h.remove(7));
}

#[test]
fn history_current_and_latest_of_a_source() {
    let mut h = temp_history();
    assert_eq!(h.current().unwrap().file, "/tmp/img0.jpg");
    assert_eq!(h.latest_of("bing").unwrap().file, "/tmp/img0.jpg");
    assert!(h.latest_of("nasa").is_none());
    // Clearing stops where the history cannot be saved.
    assert!(h.clear_step(true) && !h.clear_step(false));
    assert_eq!(h.entries().len(), 2);
    while h.clear_step(true) {}
    assert!(h.is_empty() && h.current().is_none());
}

// ---------------------------------------------------------------- http

#[test]
fn extension_from_content_type() {
    assert_eq!(image_extension(Some("image/jpeg"), "https://x/a"), "jpg");
    assert_eq!(image_extension(Some("image/png"), "https://x/a"), "png");
    assert_eq!(image_extension(Some("image/webp; charset=binary"), "https://x/a"), "webp");
    assert_eq!(image_extension(Some("image/tiff"), "https://x/a"), "tiff");
}

#[test]
fn extension_fallback_to_url() {
    assert_eq!(image_extension(None, "https://x/a.avif"), "avif");
    assert_eq!(image_extension(None, "https://x/a.tif"), "tif");
    assert_eq!(image_extension(None, "https://x/photo?w=1920"), "jpg");
    assert_eq!(image_extension(Some("text/html"), "https://x/photo"), "jpg");
}

#[test]
fn extension_ignores_case_and_query() {
    assert_eq!(image_extension(Some(" IMAGE/GIF ;x"), ""), "gif");
    assert_eq!(image_extension(Some("image/svg+xml"), "https://x/a.PNG?b=c.gif"), "png");
    assert_eq!(image_extension(None, "https://x/a.exe"), "jpg");
    assert!(ensure_ok(200, "Ok", "u").is_ok());
    assert_eq!(ensure_ok(404, "NotFound", "u").unwrap_err(), "HTTP NotFound: u");
}

// ---------------------------------------------------------------- i18n

#[test]
fn normalizes_locale_shapes() {
    for name in [Some("C"), Some("zh_cn"), Some("en"), Some("PT_br"), None] {
        let loc = system_locale(name);
        assert!(!loc.is_empty());
        if loc.contains('-') {
            let (lang, region) = loc.split_once('-').unwrap();
            assert!(lang.chars().all(|c| c.is_ascii_lowercase()));
            assert!(region.chars().all(|c| c.is_ascii_uppercase()));
        }
    }
}

#[test]
fn locale_values() {
    assert_eq!(system_locale(Some("zh_CN")), "zh-CN");
    assert_eq!(system_locale(Some("DE")), "de");
    assert_eq!(system_locale(Some("en_")), "en");
    assert_eq!(system_locale(None), "en");
    assert_eq!(locale_fallback("zh"), ("zh-CN", "CN"));
    assert_eq!(locale_fallback("bo-IN"), ("zh-CN", "CN"));
    assert_eq!(locale_fallback("lzh"), ("zh-CN", "CN"));
    assert_eq!(locale_fallback("yue"), ("zh-CN", "CN"));
    assert_eq!(locale_fallback("de-DE"), ("en-US", "US"));
    assert_eq!(
        locale_candidates(Some("/app"), Some("/t/debug/equinox"), None, Some("/home/u")),
        vec![
            "/app/usr/share/locale",
            "/t/debug/../i18n",
            "/home/u/.local/share/locale",
            "/usr/share/locale",
        ]
    );
}

// ------------------------------------------------------------- storage

fn meta(source: &str, title: &str, body: &[u8]) -> ImageMeta {
    ImageMeta {
        source: source.into(),
        title: title.into(),
        copyright: None,
        url: "https://x".into(),
        downloaded_at: 0,
        hash: content_hash(body),
        date: String::new(),
        width: 0,
        height: 0,
        extra: TextMap::new(),
    }
}

fn folder(dir: &str) -> Folder {
    Folder { dir: dir.to_string(), files: Vec::new() }
}

const STAMP: &str = "20260804-081530";

#[test]
fn hash_is_sha256_prefix() {
    // First 12 hex chars of sha256("hello")
    assert_eq!(content_hash(b"hello"), "2cf24dba5fb0");
}

#[test]
fn accepts_only_image_content_types() {
    assert!(is_image_content_type(Some("image/jpeg")));
    assert!(is_image_content_type(Some("image/jpg")));
    assert!(is_image_content_type(Some("image/webp; charset=binary")));
    assert!(is_image_content_type(Some("IMAGE/PNG")));
    // Missing header → fall back to the URL extension in store()
    assert!(is_image_content_type(None));
    // Explicit non-image types must be rejected (Europeana serves these
    // with HTTP 200 for some records).
    assert!(!is_image_content_type(Some("text/html; charset=utf-8")));
    assert!(!is_image_content_type(Some("application/pdf")));
    assert!(!is_image_content_type(Some("application/json")));
}

#[test]
fn store_dedupes_same_content() {
    let mut dir = folder("/r/bing");
    let body = b"same-image-bytes";
    let m1 = meta("bing", "First image", body);
    let m2 = meta("bing", "Second (same content)", body);

    let s1 = store_body_at(&mut dir, "jpg", &m1, STAMP);
    let s2 = store_body_at(&mut dir, "jpg", &m2, STAMP);

    // Same content → same file, no second copy
    assert_eq!(s1.image.path, s2.image.path);
    assert_eq!(dir.list_dir().len(), 1);
    assert!(s1.writes_image && s1.writes_meta && !s2.writes_image && !s2.writes_meta);
    // File name contains time + hash
    let name = s1.image.path.strip_prefix("/r/bing/").unwrap();
    assert!(name.contains(&format!("_{}.jpg", content_hash(body))), "file name: {name}");
    assert_eq!(name, format!("{STAMP}_{}.jpg", content_hash(body)));
}

#[test]
fn store_keeps_different_content() {
    let mut dir = folder("/r/bing");
    let m1 = meta("bing", "a", b"content-a");
    let m2 = meta("bing", "b", b"content-b");
    store_body_at(&mut dir, "jpg", &m1, STAMP);
    store_body_at(&mut dir, "jpg", &m2, STAMP);
    assert_eq!(dir.list_dir().len(), 2);
}

#[test]
fn dedup_id_reuses_existing_image_across_reencoded_bytes() {
    let mut dir = folder("/r/spotlight");
    let mut m1 = meta("spotlight", "First fetch", b"bytes-v1");
    m1.extra.insert("dedup-id", "128000000005722069".into());
    let s1 = store_body_at(&mut dir, "jpg", &m1, STAMP);
    assert!(!s1.image.reused);

    // Same creative served again, re-encoded (different hash) but the
    // same source identity → must NOT add a second file
    let mut m2 = meta("spotlight", "Refetch (re-encoded)", b"different-bytes-v2");
    m2.extra.insert("dedup-id", "128000000005722069".into());
    let s2 = store_body_at(&mut dir, "jpg", &m2, STAMP);
    assert!(s2.image.reused);
    assert_eq!(s1.image.path, s2.image.path);
    assert_eq!(dir.list_dir().len(), 1);

    // A different identity still stores normally
    let mut m3 = meta("spotlight", "Other picture", b"bytes-v3");
    m3.extra.insert("dedup-id", "128000000009999999".into());
    let s3 = store_body_at(&mut dir, "jpg", &m3, STAMP);
    assert!(!s3.image.reused);
    assert_eq!(dir.list_dir().len(), 2);
}

fn put(dir: &mut Folder, name: &str, m: Option<ImageMeta>) {
    dir.files.push(DirFile { name: format!("{name}.jpg"), meta: None });
    if m.is_some() {
        dir.files.push(DirFile { name: format!("{name}.json"), meta: m });
    }
}

#[test]
fn list_sorts_by_photo_date_newest_first() {
    let mut dir = folder("/r/bing");
    // File names intentionally unrelated to photo dates (out of order);
    // sorting must only look at meta.date
    for (name, hash, date, dl) in [
        ("20260804-090000", "333333333333", "2026-08-03", 90000),
        ("20260803-100000", "111111111111", "2026-08-04", 100000),
        ("20260804-080000", "222222222222", "2026-08-04", 80000),
    ] {
        let mut m = meta("bing", name, b"x");
        m.downloaded_at = dl;
        m.hash = hash.into();
        m.date = date.into();
        put(&mut dir, &format!("{name}_{hash}"), Some(m));
    }
    let names: Vec<String> = dir.list_dir().into_iter().map(|i| i.path).collect();
    // Photo dates 08-04 first (same day: download time descending),
    // 08-03 last — independent of file names
    assert_eq!(
        names,
        vec![
            "/r/bing/20260803-100000_111111111111.jpg".to_string(),
            "/r/bing/20260804-080000_222222222222.jpg".to_string(),
            "/r/bing/20260804-090000_333333333333.jpg".to_string(),
        ]
    );
    assert_eq!(Storage::latest(&dir).unwrap().path, names[0]);
    assert!(names.contains(&Storage::random(&dir).unwrap().path));
    assert_eq!(Storage::trim(&dir, 2), vec![names[2].clone()]);
    assert!(Storage::trim(&dir, 0).is_empty() && Storage::trim(&dir, 3).is_empty());
}

#[test]
fn list_mixed_dated_and_legacy_sorts_by_date_with_fallback() {
    let mut dir = folder("/r/bing");
    // Legacy data (no date): sorted by download date 08-05
    let mut legacy = meta("bing", "Legacy image", b"legacy");
    legacy.downloaded_at = 1_785_888_000; // 2026-08-05 00:00 UTC
    put(&mut dir, "legacy_hash", Some(legacy));
    // New data (dated): 08-04 / 08-06
    for (hash, date) in [("aa", "2026-08-04"), ("bb", "2026-08-06")] {
        let mut m = meta("bing", "New image", hash.as_bytes());
        m.date = date.into();
        put(&mut dir, &format!("{}_{}", date.replace('-', ""), hash), Some(m));
    }
    let dates: Vec<String> = dir
        .list_dir()
        .iter()
        .map(|i| {
            if i.meta.date.is_empty() {
                "legacy(download date)".to_owned()
            } else {
                i.meta.date.clone()
            }
        })
        .collect();
    // 08-06 > 08-05 (legacy fallback) > 08-04
    assert_eq!(
        dates,
        vec![
            "2026-08-06".to_string(),
            "legacy(download date)".to_string(),
            "2026-08-04".to_string(),
        ]
    );
}

#[test]
fn list_skips_images_without_meta() {
    let mut dir = folder("/r/nasa");
    put(&mut dir, "20260804-080000_111111111111", None); // no json, skipped
    put(&mut dir, "20260804-090000_222222222222", Some(meta("nasa", "t", b"x")));
    assert_eq!(dir.list_dir().len(), 1);
}

#[test]
fn delete_removes_json_too() {
    let mut dir = folder("/r/wikimedia");
    let name = "20260804-080000_111111111111";
    put(&mut dir, name, Some(meta("wikimedia", "t", b"x")));
    dir.files.push(DirFile { name: format!("{name}_thumb.jpg"), meta: None });
    put(&mut dir, "other", None);
    assert!(Storage::delete(&mut dir, &format!("{name}.jpg")));
    assert_eq!(dir.files.len(), 1);
    assert_eq!(dir.files[0].name, "other.jpg");
    assert!(!Storage::delete(&mut dir, &format!("{name}.jpg")));
}

#[test]
fn store_names_by_image_date_not_download_time() {
    let mut dir = folder("/r/bing");
    let body = b"dated-image-bytes";
    let mut m = meta("bing", "Dated image", body);
    m.date = "2026-08-03".into(); // e.g. Bing startdate

    let s = store_body_at(&mut dir, "jpg", &m, STAMP);
    let name = s.image.path.strip_prefix("/r/bing/").unwrap().to_string();
    // File-name prefix is the original date 20260803, not the download
    // timestamp (YYYYMMDD-HHMMSS shaped)
    assert!(name.starts_with("20260803_"), "file name: {name}");
    assert!(dir.has_dated(Date { year: 2026, month: 8, day: 3 }));
    assert!(!dir.has_dated(Date { year: 2026, month: 8, day: 4 }));

    // Undated still uses the download-time shape
    let s2 = store_body_at(&mut dir, "jpg", &meta("bing", "Undated", b"other-bytes"), STAMP);
    let name2 = s2.image.path;
    assert!(name2.contains("-"), "undated should contain the timestamp separator: {name2}");
}

#[test]
fn lost_description_is_written_again() {
    let mut dir = folder("d");
    let m = meta("bing", "t", b"body");
    let first = store_body_at(&mut dir, "png", &m, STAMP);
    dir.files.retain(|f| !f.name.ends_with(".json"));
    let again = store_body_at(&mut dir, "png", &m, "later");
    assert!(again.image.reused && again.writes_meta && !again.writes_image);
    assert_eq!(again.image.path, first.image.path);
    assert_eq!(again.image.json_path, format!("d/{STAMP}_{}.json", m.hash));
    assert_eq!(dir.list_dir().len(), 1);
}

#[test]
fn taken_names_are_numbered() {
    let mut dir = folder("d");
    let m = meta("bing", "t", b"body");
    dir.files.push(DirFile { name: format!("{STAMP}_{}.json", m.hash), meta: None });
    dir.files.push(DirFile { name: format!("{STAMP}-1_{}.json", m.hash), meta: None });
    let s = store_body_at(&mut dir, "json", &m, STAMP);
    assert_eq!(s.image.path, format!("d/{STAMP}-2_{}.json", m.hash));
}

#[test]
fn fetched_images_are_described_and_known() {
    let mut extra = TextMap::new();
    extra.insert("dedup-id", "7".to_string());
    let result = FetchResult {
        image_url: "https://x/a.png".into(),
        title: "T".into(),
        copyright: Some("C".into()),
        date: Some(Date { year: 2026, month: 1, day: 9 }),
        extra,
    };
    let mut dir = folder("/r/s");
    assert!(Storage::known(&dir, "s", &result, 5).is_none());
    let m = Storage::describe("s", &result, 5, content_hash(b"b"));
    assert_eq!((m.date.as_str(), m.downloaded_at, m.width), ("2026-01-09", 5, 0));
    let stored = store_body_at(&mut dir, "png", &m, STAMP);
    let known = Storage::known(&dir, "s", &result, 6).unwrap();
    assert_eq!(known.path, stored.image.path);
    assert!(known.reused && known.meta.hash.is_empty());
    assert_eq!(known.meta.downloaded_at, 6);
}

#[test]
fn replies_are_checked() {
    assert_eq!(
        Storage::check_reply_in(200, "Ok", Some("image/png"), "u", "No image").unwrap(),
        "png"
    );
    assert_eq!(
        Storage::check_reply_in(200, "Ok", Some("text/html"), "u", "No image").unwrap_err(),
        "No image (text/html): u"
    );
    assert_eq!(
        Storage::check_reply_in(404, "NotFound", None, "u", "No image").unwrap_err(),
        "HTTP NotFound: u"
    );
    let mut m = meta("s", "t", b"x");
    assert!(Storage::needs_dimensions(&m));
    assert!(!Storage::record_dimensions(&mut m, 0, 5));
    assert!(Storage::record_dimensions(&mut m, 4, 5));
    assert!(!Storage::needs_dimensions(&m));
}

#[test]
fn replies_are_stored_under_their_hash() {
    let result = FetchResult {
        image_url: "https://x/a".into(),
        title: "T".into(),
        copyright: None,
        date: None,
        extra: TextMap::new(),
    };
    let mut reply = HttpResponse {
        status: 200,
        status_name: "Ok".into(),
        body: b"hello".to_vec(),
        content_type: Some("image/webp".into()),
    };
    let mut dir = folder("/r/s");
    let stored = Storage::store(&mut dir, "s", &result, &reply, 5, STAMP).unwrap();
    assert_eq!(stored.image.path, format!("/r/s/{STAMP}_2cf24dba5fb0.webp"));
    assert_eq!(stored.image.meta.downloaded_at, 5);
    let again = Storage::store(&mut dir, "s", &result, &reply, 6, "later").unwrap();
    assert!(again.image.reused && dir.list_dir().len() == 1);
    reply.content_type = Some("text/html".into());
    let refused = Storage::store(&mut dir, "s", &result, &reply, 7, STAMP).unwrap_err();
    assert_eq!(refused, "Response is not an image (text/html): https://x/a");
    reply.status = 404;
    reply.status_name = "NotFound".into();
    let refused = Storage::store_in(&mut dir, "s", &result, &reply, 7, STAMP, "").unwrap_err();
    assert_eq!(refused, "HTTP NotFound: https://x/a");
    assert_eq!(Storage::delete_all(&mut dir), 2);
    assert!(dir.files.is_empty());
}

#[test]
fn same_identity_is_stored_once() {
    let fetched = |url: &str| {
        let mut extra = TextMap::new();
        extra.insert("dedup-id", "42".to_string());
        FetchResult {
            image_url: url.into(),
            title: "T".into(),
            copyright: None,
            date: Some(Date { year: 2026, month: 2, day: 1 }),
            extra,
        }
    };
    let reply = |body: &[u8]| HttpResponse {
        status: 200,
        status_name: "Ok".into(),
        body: body.to_vec(),
        content_type: None,
    };
    let mut dir = folder("/r/s");
    // A description without its image is written over.
    let orphan = format!("20260201_{}.json", content_hash(b"one"));
    dir.files.push(DirFile { name: orphan, meta: None });
    let (a, b) = (fetched("https://x/a.gif"), fetched("https://x/b"));
    let first = Storage::store(&mut dir, "s", &a, &reply(b"one"), 1, STAMP).unwrap();
    assert_eq!(first.image.path, format!("/r/s/20260201_{}.gif", content_hash(b"one")));
    let second = Storage::store(&mut dir, "s", &b, &reply(b"two"), 2, STAMP).unwrap();
    assert!(second.image.reused && !second.writes_image);
    assert_eq!(second.image.path, first.image.path);
    assert_eq!(dir.list_dir().len(), 1);
    assert_eq!(dir.list_dir()[0].path, first.image.path);
    // Another identity is another image.
    let mut c = fetched("https://x/c");
    c.extra.insert("dedup-id", "43".to_string());
    let third = Storage::store(&mut dir, "s", &c, &reply(b"three"), 3, STAMP).unwrap();
    assert!(!third.image.reused && third.writes_image);
    assert_eq!(dir.list_dir().len(), 2);
}

#[test]
fn trimming_keeps_the_newest() {
    let mut dir = folder("/r/bing");
    for (name, date) in [("a", "2026-08-01"), ("b", "2026-08-03"), ("c", "2026-08-02")] {
        let mut m = meta("bing", name, b"x");
        m.date = date.into();
        put(&mut dir, name, Some(m));
        dir.files.push(DirFile { name: format!("{name}_thumb.jpg"), meta: None });
    }
    let gone = Storage::trim(&dir, 1);
    assert_eq!(gone, vec!["/r/bing/c.jpg", "/r/bing/a.jpg"]);
    for path in &gone {
        assert!(Storage::delete(&mut dir, path.strip_prefix("/r/bing/").unwrap()));
    }
    let names: Vec<&str> = dir.files.iter().map(|f| f.name.as_str()).collect();
    assert_eq!(names, vec!["b.jpg", "b.json", "b_thumb.jpg"]);
    assert_eq!(dir.list_dir().len(), 1);
}

#[test]
fn descriptions_take_up_the_size() {
    let fetched = |id: Option<&str>| {
        let mut extra = TextMap::new();
        if let Some(id) = id {
            extra.insert("dedup-id", id.to_string());
        }
        FetchResult {
            image_url: "https://x/a.png".into(),
            title: "T".into(),
            copyright: None,
            date: None,
            extra,
        }
    };
    let reply = |body: &[u8]| HttpResponse {
        status: 200,
        status_name: "Ok".into(),
        body: body.to_vec(),
        content_type: None,
    };
    let mut dir = folder("/r/s");
    let one = Storage::store(&mut dir, "s", &fetched(None), &reply(b"one"), 1, STAMP).unwrap();
    assert!(!Storage::sized(&mut dir, &one.image, 0, 9));
    assert_eq!(dir.list_dir()[0].meta.width, 0);
    assert!(Storage::sized(&mut dir, &one.image, 16, 9));
    assert_eq!((dir.list_dir()[0].meta.width, dir.list_dir()[0].meta.height), (16, 9));
    // The same content, now with an identity: its description takes it up.
    let two = Storage::store(&mut dir, "s", &fetched(Some("7")), &reply(b"one"), 2, STAMP).unwrap();
    assert!(two.image.reused && Storage::sized(&mut dir, &two.image, 16, 9));
    assert_eq!(dir.files.len(), 2);
    let three =
        Storage::store(&mut dir, "s", &fetched(Some("7")), &reply(b"two"), 3, STAMP).unwrap();
    assert!(three.image.reused);
    assert_eq!(three.image.path, one.image.path);
    assert_eq!(dir.list_dir().len(), 1);
}

#[test]
fn storage_paths() {
    assert_eq!(
        Storage::thumbnail_path("/p/20260803_abc123.jpg"),
        "/p/20260803_abc123_thumb.jpg"
    );
    assert_eq!(Storage::root(Some("/home/u/Pictures"), None), "/home/u/Pictures/Equinox");
    assert_eq!(Storage::root(None, Some("/home/u/")), "/home/u/Equinox");
    assert_eq!(Storage::root(None, None), "Equinox");
    assert_eq!(Storage::source_dir("/r", "bing"), "/r/bing");
}
