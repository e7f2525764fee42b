//! Which wallpaper backend is used, and what each one is told.

use vstd::prelude::*;

use crate::text::{
    contains, has_text, lower, lowered, opt_text, same, starts_with, strip_prefix, trim, trimmed,
    concat,
};

verus! {

/// A wallpaper backend. `Auto` stands for automatic detection, and as an
/// outcome for no backend at all.
#[derive(Clone, Copy, Debug, PartialEq, Eq, Structural)]
pub enum Backend {
    Auto,
    Gnome,
    Kde,
    Xfce,
}

/// The backend that a configured value names, whatever its case; any other
/// value means automatic detection.
pub open spec fn backend_named(s: Seq<char>) -> Backend {
    let name = lower(trim(s));
    if name == "gnome"@ {
        Backend::Gnome
    } else if name == "kde"@ || name == "plasma"@ {
        Backend::Kde
    } else if name == "xfce"@ || name == "xubuntu"@ {
        Backend::Xfce
    } else {
        Backend::Auto
    }
}

pub open spec fn backend_id(b: Backend) -> Seq<char> {
    match b {
        Backend::Auto => "auto"@,
        Backend::Gnome => "gnome"@,
        Backend::Kde => "kde"@,
        Backend::Xfce => "xfce"@,
    }
}

impl Backend {
    /// The backend that a configured value names.
    pub fn parse(s: &str) -> (r: Backend)
        ensures
            r == backend_named(s@),
    {
        let name = lowered(trimmed(s).as_str());
        let n = name.as_str();
        if same(n, "gnome") {
            Backend::Gnome
        } else if same(n, "kde") || same(n, "plasma") {
            Backend::Kde
        } else if same(n, "xfce") || same(n, "xubuntu") {
            Backend::Xfce
        } else {
            Backend::Auto
        }
    }

    pub fn id(self) -> (r: &'static str)
        ensures
            r@ == backend_id(self),
    {
        match self {
            Backend::Auto => "auto",
            Backend::Gnome => "gnome",
            Backend::Kde => "kde",
            Backend::Xfce => "xfce",
        }
    }
}

/// The id of a backend names that backend.
pub proof fn lemma_id_names_backend(b: Backend)
    ensures
        backend_named(backend_id(b)) == b,
{
    reveal_strlit("auto");
    reveal_strlit("gnome");
    reveal_strlit("kde");
    reveal_strlit("plasma");
    reveal_strlit("xfce");
    reveal_strlit("xubuntu");
    let id = backend_id(b);
    crate::text::lemma_trim_id(id);
    assert(lower(id) =~= id);
    assert(id.len() == 4 || id.len() == 5 || id.len() == 3);
    assert(id[0] != 'p' && (b != Backend::Xfce ==> id[0] != 'x'));
}

/// Which backends can be used in this environment.
#[derive(Clone, Copy, Debug, PartialEq, Eq, Structural)]
pub struct Availability {
    pub gnome: bool,
    pub kde: bool,
    pub xfce: bool,
}

pub open spec fn usable(a: Availability, b: Backend) -> bool {
    match b {
        Backend::Auto => false,
        Backend::Gnome => a.gnome,
        Backend::Kde => a.kde,
        Backend::Xfce => a.xfce,
    }
}

impl Availability {
    pub fn has(&self, b: Backend) -> (r: bool)
        ensures
            r == usable(*self, b),
    {
        match b {
            Backend::Auto => false,
            Backend::Gnome => self.gnome,
            Backend::Kde => self.kde,
            Backend::Xfce => self.xfce,
        }
    }
}

/// The backend of the desktop session, where it names a supported desktop.
pub open spec fn session_backend(desktop: Seq<char>) -> Option<Backend> {
    let d = lower(trim(desktop));
    if contains(d, "gnome"@) {
        Some(Backend::Gnome)
    } else if contains(d, "kde"@) || contains(d, "plasma"@) {
        Some(Backend::Kde)
    } else if contains(d, "xfce"@) || contains(d, "xubuntu"@) {
        Some(Backend::Xfce)
    } else {
        None
    }
}

/// The first backend that is usable: GNOME, KDE, XFCE.
pub open spec fn first_usable(a: Availability) -> Backend {
    if a.gnome {
        Backend::Gnome
    } else if a.kde {
        Backend::Kde
    } else if a.xfce {
        Backend::Xfce
    } else {
        Backend::Auto
    }
}

/// The backend to use: the configured one, else that of the session, else the
/// first one, always provided that it is usable.
pub open spec fn resolved(forced: Seq<char>, desktop: Seq<char>, a: Availability) -> Backend {
    if forced != "auto"@ && forced.len() > 0 && usable(a, backend_named(forced)) {
        backend_named(forced)
    } else {
        match session_backend(desktop) {
            Some(b) => if usable(a, b) {
                b
            } else {
                first_usable(a)
            },
            None => first_usable(a),
        }
    }
}

/// The choice of the backend. `forced` is the configured value, `desktop` the
/// value of `XDG_CURRENT_DESKTOP`.
pub struct Applier;

impl Applier {
    /// The backend of the desktop session, where it names a supported desktop.
    pub fn preferred_backend(desktop: &str) -> (r: Option<Backend>)
        ensures
            r == session_backend(desktop@),
    {
        let d = lowered(trimmed(desktop).as_str());
        let d = d.as_str();
        if has_text(d, "gnome") {
            Some(Backend::Gnome)
        } else if has_text(d, "kde") || has_text(d, "plasma") {
            Some(Backend::Kde)
        } else if has_text(d, "xfce") || has_text(d, "xubuntu") {
            Some(Backend::Xfce)
        } else {
            None
        }
    }

    /// The backend to use; `Auto` where none is usable.
    pub fn resolve(forced: &str, desktop: &str, a: Availability) -> (r: Backend)
        ensures
            r == resolved(forced@, desktop@, a),
            r != Backend::Auto ==> usable(a, r),
            r == Backend::Auto <==> !a.gnome && !a.kde && !a.xfce,
    {
        if !same(forced, "auto") && !forced.is_empty() {
            let b = Backend::parse(forced);
            if a.has(b) {
                return b;
            }
        }
        if let Some(b) = Applier::preferred_backend(desktop) {
            if a.has(b) {
                return b;
            }
        }
        if a.gnome {
            Backend::Gnome
        } else if a.kde {
            Backend::Kde
        } else if a.xfce {
            Backend::Xfce
        } else {
            Backend::Auto
        }
    }

    /// Whether any backend is usable.
    pub fn available(forced: &str, desktop: &str, a: Availability) -> (r: bool)
        ensures
            r == (a.gnome || a.kde || a.xfce),
    {
        !matches!(Applier::resolve(forced, desktop, a), Backend::Auto)
    }

    /// The id of the backend in use.
    pub fn active_backend(forced: &str, desktop: &str, a: Availability) -> (r: Option<&'static str>)
        ensures
            match r {
                Some(id) => resolved(forced@, desktop@, a) != Backend::Auto && id@ == backend_id(
                    resolved(forced@, desktop@, a),
                ),
                None => resolved(forced@, desktop@, a) == Backend::Auto,
            },
    {
        match Applier::resolve(forced, desktop, a) {
            Backend::Auto => None,
            b => Some(b.id()),
        }
    }
}

/// A session of KDE Plasma.
pub open spec fn is_plasma_session(desktop: Seq<char>) -> bool {
    contains(lower(desktop), "kde"@) || contains(lower(desktop), "plasma"@)
}

/// Whether the session is one of KDE Plasma.
pub fn on_plasma_session(desktop: &str) -> (r: bool)
    ensures
        r == is_plasma_session(desktop@),
{
    let d = lowered(desktop);
    has_text(d.as_str(), "kde") || has_text(d.as_str(), "plasma")
}

/// Whether KDE Plasma's wallpaper can be set: through its configuration file,
/// or through the running shell.
pub fn kde_available(has_config: bool, desktop: &str) -> (r: bool)
    ensures
        r == (has_config || is_plasma_session(desktop@)),
{
    has_config || on_plasma_session(desktop)
}

/// Whether XFCE's wallpaper can be set: through the settings daemon, its
/// command line or its channel file.
pub fn xfce_available(daemon: bool, command: bool, channel_file: bool) -> (r: bool)
    ensures
        r == (daemon || command || channel_file),
{
    daemon || command || channel_file
}

/// The `file://` URI of a path.
pub open spec fn uri_of(path: Seq<char>) -> Seq<char> {
    "file://"@ + path
}

pub fn file_uri(path: &str) -> (r: String)
    ensures
        r@ == uri_of(path@),
{
    concat("file://", path)
}

/// The path of a `file://` URI; other URIs cannot be restored.
pub open spec fn path_of_uri(uri: Seq<char>) -> Option<Seq<char>> {
    if starts_with(uri, "file://"@) && uri.len() > "file://"@.len() {
        Some(uri.skip("file://"@.len() as int))
    } else {
        None
    }
}

/// The wallpaper that GNOME reports, where it is a local file.
pub fn gnome_current(uri: &str) -> (r: Option<String>)
    ensures
        opt_text(r) == path_of_uri(uri@),
{
    match strip_prefix(uri, "file://") {
        Some(path) => if path.as_str().is_empty() {
            None
        } else {
            Some(path)
        },
        None => None,
    }
}

/// What GNOME is told is what it reports.
pub proof fn lemma_uri_reads_back(path: Seq<char>)
    requires
        path.len() > 0,
    ensures
        path_of_uri(uri_of(path)) == Some(path),
{
    let p = "file://"@;
    let u = uri_of(path);
    assert(u.subrange(0, p.len() as int) =~= p);
    assert(u.skip(p.len() as int) =~= path);
}

/// The screens that Plasma's shell is asked about.
pub const PLASMA_SCREENS: u32 = 4;

/// The arguments of the shell's `setWallpaper`.
#[derive(Debug)]
pub struct PlasmaCall {
    pub plugin: &'static str,
    pub image: String,
    pub fill_mode: u32,
    pub screen: u32,
}

/// What Plasma's shell is told to show the image at a URI on a screen.
pub fn plasma_set_wallpaper_params(uri: &str, screen: u32) -> (r: PlasmaCall)
    ensures
        r.plugin@ == "org.kde.image"@,
        r.image@ == uri@,
        r.fill_mode == 2,
        r.screen == screen,
{
    PlasmaCall { plugin: "org.kde.image", image: uri.to_owned(), fill_mode: 2, screen }
}

/// A screen exists where the shell reports any property of its wallpaper.
pub fn plasma_screen_exists(properties: usize) -> (r: bool)
    ensures
        r == (properties > 0),
{
    properties > 0
}

/// How setting a wallpaper goes on.
#[derive(Clone, Copy, Debug, PartialEq, Eq, Structural)]
pub enum ApplyStep {
    Done,
    /// Edit the configuration file.
    EditFile,
    /// Set the listed properties through the settings daemon.
    SetThroughDaemon,
    /// Set the listed properties on the command line.
    SetThroughCommand,
}

/// What follows the attempt to set Plasma's wallpaper through the shell:
/// `screens` were set, or the shell could not be reached.
pub fn kde_step(screens: Option<u32>) -> (r: ApplyStep)
    ensures
        r == (if screens is Some && screens->0 > 0 {
            ApplyStep::Done
        } else {
            ApplyStep::EditFile
        }),
{
    match screens {
        Some(n) => if n > 0 {
            ApplyStep::Done
        } else {
            ApplyStep::EditFile
        },
        None => ApplyStep::EditFile,
    }
}

/// How XFCE's wallpaper is set, given the properties that each way knows of;
/// `None` stands for a way that is not there.
pub fn xfce_step(daemon: Option<usize>, command: Option<usize>) -> (r: ApplyStep)
    ensures
        r == (if daemon is Some && daemon->0 > 0 {
            ApplyStep::SetThroughDaemon
        } else if command is Some && command->0 > 0 {
            ApplyStep::SetThroughCommand
        } else {
            ApplyStep::EditFile
        }),
{
    match daemon {
        Some(n) => if n > 0 {
            return ApplyStep::SetThroughDaemon;
        },
        None => {},
    }
    match command {
        Some(n) => if n > 0 {
            return ApplyStep::SetThroughCommand;
        },
        None => {},
    }
    ApplyStep::EditFile
}

} // verus!
