//! Backends and the configuration of the desktops.

use equinox::applier::{
    file_uri, gnome_current, kde_available, kde_step, on_plasma_session, plasma_screen_exists,
    plasma_set_wallpaper_params, xfce_available, xfce_step, Applier, ApplyStep, Availability,
    Backend,
};
use equinox::plasma::{plasma_current_from_raw, rewrite_plasma};
use equinox::xfce::{
    backdrop_keys, backdrop_targets, current_backdrop, list_backdrop_properties,
    monitor_names_of_keys, parse_monitors, rewrite_xfce_xml,
};

// ------------------------------------------------------------------
// Backend::parse
// ------------------------------------------------------------------

#[test]
fn backend_parse_known_and_auto() {
    assert_eq!(Backend::parse("gnome"), Backend::Gnome);
    assert_eq!(Backend::parse("KDE"), Backend::Kde);
    assert_eq!(Backend::parse("plasma"), Backend::Kde);
    assert_eq!(Backend::parse("xfce"), Backend::Xfce);
    assert_eq!(Backend::parse("xubuntu"), Backend::Xfce);
}

#[test]
fn backend_parse_empty_and_unknown_fall_back_to_auto() {
    assert_eq!(Backend::parse(""), Backend::Auto);
    assert_eq!(Backend::parse("auto"), Backend::Auto);
    assert_eq!(Backend::parse("cinnamon"), Backend::Auto);
    assert_eq!(Backend::parse("  "), Backend::Auto);
}

// ------------------------------------------------------------------
// KDE Plasma rewrite
// ------------------------------------------------------------------

#[test]
fn plasma_rewrites_first_image_wallpaper() {
    // Realistic Plasma layout: each containment is a [Containments][N]
    // group whose wallpaper lives in a nested
    // [Containments][N][Wallpaper][org.kde.image][General] group. The
    // first such group's `Image=` is rewritten.
    let fixture = r#"[Containments][1]
plugin=org.kde.image

[Containments][1][Wallpaper][org.kde.image][General]
Image=file:///old/wallpaper.jpg
FillMode=2

[Containments][2]
plugin=org.kde.slideshow

[Containments][2][Wallpaper][org.kde.image][General]
Image=file:///old2/wallpaper.jpg
FillMode=2
"#;
    let out = rewrite_plasma(fixture, "/new/img.jpg").unwrap();
    assert!(out.contains("Image=/new/img.jpg"));
    assert!(!out.contains("Image=file:///old/wallpaper.jpg"));
    // The second containment's wallpaper is left untouched.
    assert!(out.contains("Image=file:///old2/wallpaper.jpg"));
    // Regression: every later section header must survive — an earlier
    // bug dropped all headers after the first match, truncating the tail
    // of the Plasma config (which broke Plasma's wallpaper entirely).
    assert!(
        out.lines().any(|l| l == "[Containments][2]"),
        "standalone [Containments][2] header must survive"
    );
    assert!(out.contains("[Containments][2][Wallpaper][org.kde.image][General]"));
    assert!(out.contains("[Containments][1][Wallpaper][org.kde.image][General]"));
}

#[test]
fn plasma_no_image_wallpaper_returns_none() {
    let raw = "[Containments][1][General]\nplugin=org.kde.jpeg\n";
    assert!(rewrite_plasma(raw, "/x.jpg").is_none());
}

#[test]
fn plasma_current_reads_org_kde_image_group() {
    // Native Plasma: the current wallpaper is the first `Image=` inside an
    // org.kde.image wallpaper group; the file:// prefix is stripped so the
    // stored original is a plain local path (restorable via apply()).
    let raw = "\
[Containments][1]
plugin=org.kde.plasma.folder
wallpaperplugin=org.kde.image

[Containments][1][Wallpaper][org.kde.image][General]
Image=file:///home/u/Pictures/original.jpg
FillMode=2

[Containments][2]
plugin=org.kde.panel
";
    assert_eq!(
        plasma_current_from_raw(raw).as_deref(),
        Some("/home/u/Pictures/original.jpg")
    );
}

#[test]
fn plasma_current_none_when_no_image_group() {
    assert_eq!(plasma_current_from_raw("[Containments][1]\nplugin=org.kde.jpeg\n"), None);
    assert_eq!(plasma_current_from_raw(""), None);
}

#[test]
fn plasma_empty_config_returns_none() {
    assert!(rewrite_plasma("", "/x.jpg").is_none());
}

#[test]
fn plasma_group_without_image_inserts_key() {
    // A `[Wallpaper][org.kde.image][General]` group that has no `Image=`
    // key yet (fresh desktop) must get one — previously this yielded the
    // "No image-type wallpaper configured in Plasma" error.
    let raw = "[Containments][1]\nplugin=org.kde.image\n\n[Containments][1][Wallpaper][org.kde.image][General]\nFillMode=2\n";
    let out = rewrite_plasma(raw, "/new/img.jpg").unwrap();
    assert!(out.contains("Image=/new/img.jpg"));
    // The group header + other keys survive.
    assert!(out.contains("[Containments][1][Wallpaper][org.kde.image][General]"));
    assert!(out.contains("FillMode=2"));
    assert!(out.contains("plugin=org.kde.image"));
}

#[test]
fn plasma_without_group_creates_one_for_image_containment() {
    // No image wallpaper group at all, but an image-type containment:
    // the group must be created (covers Plasma installs whose wallpaper
    // is managed elsewhere / a slideshow default).
    let raw = "[Containments][1]\nactivityId=abc\nplugin=org.kde.image\n\n[Containments][2]\nplugin=org.kde.panel\n";
    let out = rewrite_plasma(raw, "/new/img.jpg").unwrap();
    assert!(out.contains("[Containments][1][Wallpaper][org.kde.image][General]"));
    assert!(out.contains("Image=/new/img.jpg"));
    // The rest of the file is untouched (panel containment preserved).
    assert!(out.contains("[Containments][2]"));
    assert!(out.contains("plugin=org.kde.panel"));
}

#[test]
fn plasma_starts_desktop_wallpaper_with_wallpaperplugin_marker() {
    // The STANDARD Plasma marker: the desktop containment has
    // `plugin=org.kde.desktopcontainment` + `wallpaperPlugin=org.kde.image`
    // — only the latter says "image wallpaper". Creating the group there
    // is what makes a fresh/different-layout Plasma install work.
    let raw = "[Containments][1]\nactivityId=abc\nplugin=org.kde.desktopcontainment\nwallpaperPlugin=org.kde.image\n\n[Containments][2]\nplugin=org.kde.panel\n";
    let out = rewrite_plasma(raw, "/new/img.jpg").unwrap();
    assert!(
        out.contains("[Containments][1][Wallpaper][org.kde.image][General]"),
        "group must be created under the wallpaperPlugin-marked containment"
    );
    assert!(out.contains("Image=/new/img.jpg"));
    assert!(out.contains("[Containments][2]"));
    assert!(out.contains("plugin=org.kde.panel"));
}

#[test]
fn plasma_group_creation_keeps_containment_keys_in_place() {
    // Regression: the wallpaper group used to be inserted right after the
    // `wallpaperPlugin=` marker line, which swallowed every containment key
    // that followed it (`lastScreen=`, `activityId=`, ...) into the new
    // [Wallpaper] group — Plasma then lost the containment keys and the
    // change was ignored/reverted. The group must be created at the END of
    // the containment's key block instead.
    let raw = "\
[Containments][1]
activityId=abc
plugin=org.kde.desktopcontainment
wallpaperPlugin=org.kde.image
lastScreen=0
[Containments][2]
plugin=org.kde.panel
";
    let out = rewrite_plasma(raw, "/new/img.jpg").unwrap();
    let lines: Vec<&str> = out.lines().collect();
    let wpos = lines
        .iter()
        .position(|l| *l == "[Containments][1][Wallpaper][org.kde.image][General]")
        .expect("wallpaper group created");
    let ls_pos = lines
        .iter()
        .position(|l| *l == "lastScreen=0")
        .expect("lastScreen preserved");
    // The image line sits inside the wallpaper group…
    assert!(lines[wpos..].iter().any(|l| *l == "Image=/new/img.jpg"));
    // …but the containment key must stay OUTSIDE (before) the group.
    assert!(
        ls_pos < wpos,
        "containment keys after the plugin marker must remain in the containment, got lastScreen at {ls_pos} vs group at {wpos}:\n{out}"
    );
    // And the next containment is still intact.
    assert!(lines.iter().any(|l| *l == "[Containments][2]"));
}

#[test]
fn plasma_group_creation_at_eof() {
    // Marker containment is the LAST section: the group is created at EOF,
    // not lost.
    let raw = "[Containments][1]\nactivityId=abc\nplugin=org.kde.desktopcontainment\nwallpaperPlugin=org.kde.image\nlastScreen=0\n";
    let out = rewrite_plasma(raw, "/new/img.jpg").unwrap();
    let lines: Vec<&str> = out.lines().collect();
    let wpos = lines
        .iter()
        .position(|l| *l == "[Containments][1][Wallpaper][org.kde.image][General]")
        .expect("wallpaper group created");
    let ls_pos = lines.iter().position(|l| *l == "lastScreen=0").unwrap();
    assert!(ls_pos < wpos);
    assert!(lines[wpos..].iter().any(|l| *l == "Image=/new/img.jpg"));
}

#[test]
fn xfce_parse_monitors() {
    let out = parse_monitors("\
Monitors: 1
 0: +Virtual-1 2048/542x1152/305+0+0  Virtual-1
");
    assert_eq!(out, vec!["Virtual-1"]);
}

#[test]
fn xfce_parse_monitors_multi_and_bare() {
    // Multiple monitors, a primary without the + marker, and the header
    // line must not leak in as a monitor name.
    let out = parse_monitors("\
Monitors: 2
 0: +HDMI-1 1920x1080+0+0  HDMI-1
 1: -DP-2 1280x1024+1920+0  DP-2
");
    assert_eq!(out, vec!["HDMI-1", "DP-2"]);
}

#[test]
fn plasma_folder_view_with_lowercase_wallpaperplugin() {
    // The REAL Fedora/Plasma-6 desktop: a folder-view containment
    // (`plugin=org.kde.plasma.folder`) marked as image wallpaper with a
    // LOWERCASE `wallpaperplugin=` key, no `[Wallpaper]` group at all, and
    // a panel behind it. Regression: the old case-sensitive match on
    // `wallpaperPlugin` missed the marker and claimed "no image wallpaper".
    let raw = "\
[Containments][1]
ItemGeometries-1280x800=
activityId=8a6b7e14-3993-4dd5-9e24-036da3d45d51
formfactor=0
immutability=1
lastScreen=0
location=0
plugin=org.kde.plasma.folder
wallpaperplugin=org.kde.image

[Containments][2]
activityId=
formfactor=2
immutability=1
LastScreen=0
location=4
plugin=org.kde.panel

[Containments][2][Applets][22]
immutability=1
plugin=org.kde.plasma.digitalclock
";
    let out = rewrite_plasma(raw, "/home/u/Equinox/x.jpg").unwrap();
    let lines: Vec<&str> = out.lines().collect();
    let wpos = lines
        .iter()
        .position(|l| *l == "[Containments][1][Wallpaper][org.kde.image][General]")
        .expect("wallpaper group must be created under containment 1");
    // The switch keys of containment 1 must stay OUTSIDE the new group.
    let act_pos = lines
        .iter()
        .position(|l| l.starts_with("activityId="))
        .expect("activityId preserved");
    assert!(act_pos < wpos, "activityId swallowed into the wallpaper group");
    // Panel + its digitalclock applet survive untouched.
    assert!(lines.iter().any(|l| *l == "[Containments][2]"));
    assert!(lines.iter().any(|l| *l == "plugin=org.kde.plasma.digitalclock"));
    assert!(lines[wpos..].iter().any(|l| *l == "Image=/home/u/Equinox/x.jpg"));
}

#[test]
fn plasma_set_wallpaper_params_shape() {
    let p = plasma_set_wallpaper_params("file:///home/u/Pictures/Equinox/x.jpg", 0);
    // Plugin id, the two properties of the image plugin, screen.
    assert_eq!(p.plugin, "org.kde.image");
    assert_eq!(p.screen, 0);
    assert_eq!(p.image, "file:///home/u/Pictures/Equinox/x.jpg");
    assert_eq!(p.fill_mode, 2);
}

// ------------------------------------------------------------------
// XFCE XML rewrite
// ------------------------------------------------------------------

const XFCE_FIXTURE: &str = r#"<channel name="xfce4-desktop" version="1.0">
  <property name="backdrop" type="empty">
    <property name="screen0" type="empty">
      <property name="monitor0" type="empty">
        <property name="workspace0" type="empty">
          <property name="last-image" type="string" value="/old/wallpaper.jpg"/>
        </property>
      </property>
    </property>
  </property>
</channel>
"#;

#[test]
fn xfce_rewrites_last_image_value() {
    let out = rewrite_xfce_xml(XFCE_FIXTURE, "/new/img.jpg").unwrap();
    assert!(out.contains(r#"value="/new/img.jpg""#));
    assert!(!out.contains(r#"value="/old/wallpaper.jpg""#));
}

#[test]
fn xfce_rewrites_multiple_last_images() {
    let raw = XFCE_FIXTURE.replace(
        "workspace0",
        "workspace0",
    ); // single occurrence here
    let multi = raw.replace(
        r#"<property name="last-image" type="string" value="/old/wallpaper.jpg"/>"#,
        r#"<property name="last-image" type="string" value="/old/a.jpg"/>
       <property name="last-image" type="string" value="/old/b.jpg"/>"#,
    );
    let out = rewrite_xfce_xml(&multi, "/new/img.jpg").unwrap();
    assert_eq!(out.matches(r#"value="/new/img.jpg""#).count(), 2);
}

#[test]
fn xfce_no_last_image_returns_none() {
    let raw = r#"<channel name="xfce4-desktop" version="1.0"><property name="x"/></channel>"#;
    assert!(rewrite_xfce_xml(raw, "/x.jpg").is_none());
}

// ------------------------------------------------------------------
// What holds across several functions
// ------------------------------------------------------------------

const GROUP: &str = "[Containments][1][Wallpaper][org.kde.image][General]";

#[test]
fn plasma_rewrite_is_exact() {
    let raw = format!("{GROUP}\nImage=/a.jpg\n \nFillMode=2");
    let out = rewrite_plasma(&raw, "/n.jpg").unwrap();
    // A blank line loses its whitespace, every other line is kept.
    assert_eq!(out, format!("{GROUP}\nImage=/n.jpg\n\nFillMode=2\n"));
}

#[test]
fn plasma_key_is_added_at_the_end_of_the_group() {
    let raw = format!("{GROUP}\nFillMode=2\n[Other]\nx=1");
    let out = rewrite_plasma(&raw, "/n.jpg").unwrap();
    assert_eq!(out, format!("{GROUP}\nFillMode=2\nImage=/n.jpg\n[Other]\nx=1\n"));
}

#[test]
fn plasma_created_group_is_exact() {
    let raw = "[Containments][7]\nPLUGIN=ORG.KDE.IMAGE\nlastScreen=0\n[Containments][8]\nx=1";
    let out = rewrite_plasma(raw, "/n.jpg").unwrap();
    assert_eq!(
        out,
        "[Containments][7]\nPLUGIN=ORG.KDE.IMAGE\nlastScreen=0\n\n\
         [Containments][7][Wallpaper][org.kde.image][General]\nImage=/n.jpg\n\
         [Containments][8]\nx=1\n"
    );
}

#[test]
fn plasma_reads_back_what_was_written() {
    for raw in [
        format!("{GROUP}\nImage=file:///a.jpg\n"),
        format!("{GROUP}\n"),
        "[Containments][1]\nwallpaperplugin=org.kde.image\n".to_string(),
    ] {
        let out = rewrite_plasma(&raw, "/home/u/new one.jpg").unwrap();
        assert_eq!(plasma_current_from_raw(&out).as_deref(), Some("/home/u/new one.jpg"));
    }
}

#[test]
fn plasma_lines_with_other_scripts_are_kept() {
    let raw = format!("[Containments][1]\nName=日本\n{GROUP}\nImage=/a.jpg");
    let out = rewrite_plasma(&raw, "/n.jpg").unwrap();
    assert_eq!(out, format!("[Containments][1]\nName=日本\n{GROUP}\nImage=/n.jpg\n"));
}

#[test]
fn xfce_rewrite_keeps_everything_else() {
    let out = rewrite_xfce_xml(XFCE_FIXTURE, "/new/img.jpg").unwrap();
    assert_eq!(out, XFCE_FIXTURE.replace("/old/wallpaper.jpg", "/new/img.jpg"));
}

#[test]
fn xfce_property_without_value_is_left_alone() {
    assert!(rewrite_xfce_xml(r#"<property name="last-image"/>"#, "/x.jpg").is_none());
    assert!(rewrite_xfce_xml(r#"<property name="last-image" value="/x"#, "/y.jpg").is_none());
}

#[test]
fn xfce_targets_cover_monitors_once() {
    let listed = backdrop_keys(&vec![
        "/backdrop/screen0/monitorDP-2/workspace0/last-image".to_string(),
        "/backdrop/screen0/monitorDP-2/workspace0/image-style".to_string(),
    ]);
    assert_eq!(listed.len(), 1);
    let targets = backdrop_targets(listed, &vec!["DP-2".to_string(), "HDMI-1".to_string()]);
    assert_eq!(
        targets,
        vec![
            "/backdrop/screen0/monitorDP-2/workspace0/last-image",
            "/backdrop/screen0/monitorHDMI-1/workspace0/last-image",
        ]
    );
}

#[test]
fn xfce_listing_and_displays() {
    let listing = " /backdrop/a/last-image \n/backdrop/b/image-show\n/backdrop/c/last-image";
    assert_eq!(
        list_backdrop_properties(listing),
        vec!["/backdrop/a/last-image", "/backdrop/c/last-image"]
    );
    let keys: Vec<String> = ["/Default/eDP-1/Active", "/Default/eDP-1/Scale", "HDMI-1/x", "/", ""]
        .iter()
        .map(|s| s.to_string())
        .collect();
    assert_eq!(monitor_names_of_keys(&keys), vec!["eDP-1", "HDMI-1"]);
    assert_eq!(
        current_backdrop(&vec![None, Some(String::new()), Some("/a.jpg".to_string())]),
        Some("/a.jpg".to_string())
    );
    assert_eq!(current_backdrop(&vec![None]), None);
}

#[test]
fn backend_is_forced_then_of_the_session_then_first() {
    let all = Availability { gnome: true, kde: true, xfce: true };
    assert_eq!(Applier::resolve("xfce", "KDE", all), Backend::Xfce);
    assert_eq!(Applier::resolve("auto", "KDE", all), Backend::Kde);
    assert_eq!(Applier::resolve("cinnamon", "sway", all), Backend::Gnome);
    let no_xfce = Availability { gnome: true, kde: false, xfce: false };
    assert_eq!(Applier::resolve("xfce", "KDE", no_xfce), Backend::Gnome);
    let none = Availability { gnome: false, kde: false, xfce: false };
    assert_eq!(Applier::resolve("gnome", "GNOME", none), Backend::Auto);
    assert!(!Applier::available("auto", "", none));
    assert_eq!(Applier::active_backend("auto", "", none), None);
    assert_eq!(Applier::active_backend("auto", "XFCE", all), Some("xfce"));
    assert_eq!(Applier::preferred_backend(" ubuntu:GNOME "), Some(Backend::Gnome));
    assert_eq!(Applier::preferred_backend("Hyprland"), None);
}

#[test]
fn backend_id_names_the_backend() {
    for b in [Backend::Auto, Backend::Gnome, Backend::Kde, Backend::Xfce] {
        assert_eq!(Backend::parse(b.id()), b);
    }
}

#[test]
fn desktops_report_their_wallpaper_and_steps() {
    assert_eq!(gnome_current("file:///a b.jpg").as_deref(), Some("/a b.jpg"));
    assert_eq!(gnome_current("file://"), None);
    assert_eq!(gnome_current("https://x/a.jpg"), None);
    assert!(on_plasma_session("x;KDE"));
    assert!(!on_plasma_session("GNOME"));
    assert!(kde_available(true, ""));
    assert!(!kde_available(false, "XFCE"));
    assert_eq!(kde_step(Some(2)), ApplyStep::Done);
    assert_eq!(kde_step(Some(0)), ApplyStep::EditFile);
    assert_eq!(kde_step(None), ApplyStep::EditFile);
    assert_eq!(xfce_step(Some(1), None), ApplyStep::SetThroughDaemon);
    assert_eq!(xfce_step(Some(0), Some(3)), ApplyStep::SetThroughCommand);
    assert_eq!(xfce_step(None, Some(0)), ApplyStep::EditFile);
}

#[test]
fn uris_and_probes() {
    assert_eq!(file_uri("/a b.jpg"), "file:///a b.jpg");
    assert_eq!(gnome_current(&file_uri("/a b.jpg")).as_deref(), Some("/a b.jpg"));
    assert!(plasma_screen_exists(2) && !plasma_screen_exists(0));
    assert!(xfce_available(true, false, false) && xfce_available(false, true, false));
    assert!(xfce_available(false, false, true) && !xfce_available(false, false, false));
}
