//! Starting the background service at login: through an XDG autostart entry,
//! or through a systemd user unit that wraps the supervisor.
//!
//! The functions decide from what was observed on the host and answer with the
//! steps to take. Whoever takes them goes on after a `stop`, `enable`, `disable`
//! or reload that fails, and gives up at any other step that fails.

use vstd::prelude::*;

use crate::path::{join, joined, parent, parent_of};
use crate::text::{
    concat, contains, free_of, has_text, join_texts, joined_texts, lines, lines_of, lower, lowered,
    push_line, render, same, split, split_on, starts_with, strip_prefix, texts, trim, trimmed,
};

verus! {

/// The name of the autostart entry and of the systemd unit.
pub const AUTOSTART_ID: &'static str = "equinox-supervisor";

/// The systemd unit of the supervisor.
pub const SERVICE: &'static str = "equinox-supervisor.service";

/// The systemd unit of earlier installations; it counts as the same service.
pub const LEGACY_SERVICE: &'static str = "equinox-daemon.service";

/// A systemd unit.
#[derive(Clone, Copy, Debug, PartialEq, Eq, Structural)]
pub enum Unit {
    Current,
    Legacy,
}

/// Something to do on the host.
#[derive(Clone, Copy, Debug, PartialEq, Eq, Structural)]
pub enum Step {
    Start(Unit),
    Stop(Unit),
    Enable(Unit),
    Disable(Unit),
    Reload,
    /// Write the unit file of the supervisor, and its directory.
    WriteUnit,
    RemoveUnit(Unit),
    /// Write the autostart entry, and its directory.
    WriteAutostart,
    RemoveAutostart,
}

/// What is observed of a unit.
#[derive(Clone, Copy, Debug, PartialEq, Eq, Structural)]
pub struct UnitState {
    pub installed: bool,
    pub active: bool,
    pub enabled: bool,
}

/// What is observed on the host.
#[derive(Clone, Copy, Debug, PartialEq, Eq, Structural)]
pub struct Host {
    /// A systemd user instance can be used.
    pub systemd: bool,
    /// There is an autostart entry.
    pub autostart: bool,
    pub current: UnitState,
    pub legacy: UnitState,
}

pub open spec fn unit_after(u: UnitState, s: Step, which: Unit) -> UnitState {
    match s {
        Step::Start(w) => if w == which {
            UnitState { active: u.installed || u.active, ..u }
        } else {
            u
        },
        Step::Stop(w) => if w == which {
            UnitState { active: false, ..u }
        } else {
            u
        },
        Step::Enable(w) => if w == which {
            UnitState { enabled: u.installed || u.enabled, ..u }
        } else {
            u
        },
        Step::Disable(w) => if w == which {
            UnitState { enabled: false, ..u }
        } else {
            u
        },
        Step::WriteUnit => if which == Unit::Current {
            UnitState { installed: true, ..u }
        } else {
            u
        },
        Step::RemoveUnit(w) => if w == which {
            UnitState { installed: false, ..u }
        } else {
            u
        },
        _ => u,
    }
}

/// The host once a step was taken.
pub open spec fn host_after(h: Host, s: Step) -> Host {
    Host {
        systemd: h.systemd,
        autostart: match s {
            Step::WriteAutostart => true,
            Step::RemoveAutostart => false,
            _ => h.autostart,
        },
        current: unit_after(h.current, s, Unit::Current),
        legacy: unit_after(h.legacy, s, Unit::Legacy),
    }
}

/// The host once all steps were taken.
pub open spec fn host_after_all(h: Host, steps: Seq<Step>) -> Host
    decreases steps.len(),
{
    if steps.len() == 0 {
        h
    } else {
        host_after(host_after_all(h, steps.drop_last()), steps.last())
    }
}

pub open spec fn unit_name(u: Unit) -> Seq<char> {
    match u {
        Unit::Current => SERVICE@,
        Unit::Legacy => LEGACY_SERVICE@,
    }
}

impl Unit {
    pub fn name(self) -> (r: &'static str)
        ensures
            r@ == unit_name(self),
    {
        match self {
            Unit::Current => SERVICE,
            Unit::Legacy => LEGACY_SERVICE,
        }
    }
}

/// The verb and the unit of a step that `systemctl --user` takes.
pub open spec fn command_of(s: Step) -> Option<(Seq<char>, Option<Seq<char>>)> {
    match s {
        Step::Start(u) => Some(("start"@, Some(unit_name(u)))),
        Step::Stop(u) => Some(("stop"@, Some(unit_name(u)))),
        Step::Enable(u) => Some(("enable"@, Some(unit_name(u)))),
        Step::Disable(u) => Some(("disable"@, Some(unit_name(u)))),
        Step::Reload => Some(("daemon-reload"@, None)),
        _ => None,
    }
}

impl Step {
    /// The verb and the unit, where `systemctl --user` takes the step.
    pub fn command(self) -> (r: Option<(&'static str, Option<&'static str>)>)
        ensures
            match r {
                Some((verb, unit)) => command_of(self) == Some(
                    (
                        verb@,
                        match unit {
                            Some(u) => Some(u@),
                            None => None,
                        },
                    ),
                ),
                None => command_of(self) is None,
            },
    {
        match self {
            Step::Start(u) => Some(("start", Some(u.name()))),
            Step::Stop(u) => Some(("stop", Some(u.name()))),
            Step::Enable(u) => Some(("enable", Some(u.name()))),
            Step::Disable(u) => Some(("disable", Some(u.name()))),
            Step::Reload => Some(("daemon-reload", None)),
            _ => None,
        }
    }
}

/// The autostart entry.
pub fn autostart_file(config_dir: &str) -> (r: String)
    ensures
        r@ == joined(joined(config_dir@, "autostart"@), "equinox-supervisor.desktop"@),
{
    join(join(config_dir, "autostart").as_str(), "equinox-supervisor.desktop")
}

/// The file of a systemd unit.
pub fn unit_path(config_dir: &str, unit: Unit) -> (r: String)
    ensures
        r@ == joined(joined(joined(config_dir@, "systemd"@), "user"@), unit_name(unit)),
{
    join(join(join(config_dir, "systemd").as_str(), "user").as_str(), unit.name())
}

/// Whether the program runs in a flatpak sandbox; `id` is `FLATPAK_ID`.
pub fn in_flatpak(id: Option<&str>) -> (r: bool)
    ensures
        r == (id is Some && id->0@.len() > 0),
{
    match id {
        Some(v) => !v.is_empty(),
        None => false,
    }
}

pub open spec fn in_dirs(dirs: Seq<Seq<char>>) -> Seq<Seq<char>> {
    dirs.map_values(|d: Seq<char>| joined(d, AUTOSTART_ID@))
}

/// Where the supervisor may be: beside the running program, then in the
/// directories of the search path.
pub open spec fn supervisor_places(program: Option<Seq<char>>, dirs: Seq<Seq<char>>) -> Seq<
    Seq<char>,
> {
    match program {
        Some(exe) => match parent_of(exe) {
            Some(dir) => seq![joined(dir, AUTOSTART_ID@)] + in_dirs(dirs),
            None => in_dirs(dirs),
        },
        None => in_dirs(dirs),
    }
}

/// Where the supervisor may be.
pub fn supervisor_candidates(program: Option<&str>, dirs: &Vec<String>) -> (r: Vec<String>)
    ensures
        texts(r@) == supervisor_places(crate::i18n::opt_str(program), texts(dirs@)),
{
    let mut out: Vec<String> = Vec::new();
    if let Some(exe) = program {
        if let Some(dir) = parent(exe) {
            out.push(join(dir.as_str(), AUTOSTART_ID));
        }
    }
    let ghost first = texts(out@);
    let ghost rest = in_dirs(texts(dirs@));
    let mut i: usize = 0;
    assert(texts(out@) =~= first + rest.take(0));
    while i < dirs.len()
        invariant
            i <= dirs.len(),
            rest == in_dirs(texts(dirs@)),
            texts(out@) == first + rest.take(i as int),
        decreases dirs.len() - i,
    {
        let ghost before = texts(out@);
        let place = join(dirs[i].as_str(), AUTOSTART_ID);
        let ghost p = place@;
        assert(texts(dirs@)[i as int] == dirs@[i as int]@);
        assert(p == rest[i as int]);
        out.push(place);
        assert(texts(out@) =~= before.push(p));
        assert(first + rest.take(i + 1) =~= before.push(rest[i as int]));
        i += 1;
    }
    assert(rest.take(i as int) =~= rest);
    assert(texts(out@) =~= supervisor_places(crate::i18n::opt_str(program), texts(dirs@)));
    out
}

/// The first place that holds a file.
pub open spec fn first_present(places: Seq<Seq<char>>, present: Seq<bool>) -> Option<Seq<char>>
    decreases places.len(),
{
    if places.len() == 0 || present.len() == 0 {
        None
    } else if present[0] {
        Some(places[0])
    } else {
        first_present(places.skip(1), present.skip(1))
    }
}

/// The command that starts the supervisor: through flatpak inside a sandbox,
/// else by its absolute path, else by its name.
pub open spec fn exec_command(
    flatpak_id: Option<Seq<char>>,
    places: Seq<Seq<char>>,
    present: Seq<bool>,
) -> Seq<char> {
    match crate::json::filled(flatpak_id) {
        Some(app) => "flatpak run --command=equinox-supervisor "@ + app,
        None => match first_present(places, present) {
            Some(p) => p,
            None => AUTOSTART_ID@,
        },
    }
}

/// The command that starts the supervisor. `places` are its candidates and
/// `present` says which of them are files.
pub fn supervisor_exec(
    flatpak_id: Option<&str>,
    places: &Vec<String>,
    present: &Vec<bool>,
) -> (r: String)
    ensures
        r@ == exec_command(crate::i18n::opt_str(flatpak_id), texts(places@), present@),
{
    if let Some(app) = flatpak_id {
        if !app.is_empty() {
            return concat("flatpak run --command=equinox-supervisor ", app);
        }
    }
    let ghost all = texts(places@);
    let mut i: usize = 0;
    assert(all.skip(0) =~= all);
    assert(present@.skip(0) =~= present@);
    while i < places.len() && i < present.len()
        invariant
            i <= places.len(),
            i <= present.len(),
            all == texts(places@),
            crate::json::filled(crate::i18n::opt_str(flatpak_id)) is None,
            first_present(all, present@) == first_present(
                all.skip(i as int),
                present@.skip(i as int),
            ),
        decreases places.len() - i,
    {
        assert(all.skip(i as int)[0] == places@[i as int]@);
        assert(all.skip(i as int).skip(1) =~= all.skip(i + 1));
        assert(present@.skip(i as int).skip(1) =~= present@.skip(i + 1));
        if present[i] {
            return places[i].clone();
        }
        i += 1;
    }
    AUTOSTART_ID.to_owned()
}

/// The lines of the autostart entry for a command.
pub open spec fn entry_lines(exec: Seq<char>) -> Seq<Seq<char>> {
    seq![
        "[Desktop Entry]"@,
        "Type=Application"@,
        "Name=Equinox background"@,
        "Comment=Keep the Equinox wallpaper daemon running"@,
        "Exec="@ + exec,
        "Terminal=false"@,
        "X-GNOME-Autostart-enabled=true"@,
    ]
}

/// The autostart entry for a command. It is not hidden: desktops do not run
/// hidden entries.
pub fn autostart_content(exec: &str) -> (r: String)
    ensures
        r@ == render(entry_lines(exec@)),
{
    let mut s = String::new();
    let ghost l = entry_lines(exec@);
    proof {
        reveal_with_fuel(render, 8);
        assert(l.drop_last().drop_last().drop_last().drop_last().drop_last().drop_last().drop_last()
            =~= Seq::empty());
    }
    push_line(&mut s, "[Desktop Entry]");
    push_line(&mut s, "Type=Application");
    push_line(&mut s, "Name=Equinox background");
    push_line(&mut s, "Comment=Keep the Equinox wallpaper daemon running");
    push_line(&mut s, concat("Exec=", exec).as_str());
    push_line(&mut s, "Terminal=false");
    push_line(&mut s, "X-GNOME-Autostart-enabled=true");
    assert(s@ =~= render(l));
    s
}

/// The unit file for a command.
pub open spec fn unit_text(exec: Seq<char>) -> Seq<char> {
    "[Unit]\nDescription=Equinox wallpaper supervisor\nAfter=graphical-session.target\n\n"@
        + "[Service]\nExecStart="@ + exec + "\nRestart=on-failure\nRestartSec=5\n\n[Install]\nWantedBy=default.target\n"@
}

/// The unit file for a command.
pub fn unit_content(exec: &str) -> (r: String)
    ensures
        r@ == unit_text(exec@),
{
    let mut s = concat(
        "[Unit]\nDescription=Equinox wallpaper supervisor\nAfter=graphical-session.target\n\n",
        "[Service]\nExecStart=",
    );
    s.append(exec);
    s.append("\nRestart=on-failure\nRestartSec=5\n\n[Install]\nWantedBy=default.target\n");
    s
}

/// A line that runs a command.
pub open spec fn runs(line: Seq<char>, desired: Seq<char>) -> bool {
    let t = trim(line);
    starts_with(t, "Exec="@) && contains(trim(t.skip("Exec="@.len() as int)), desired)
}

/// A line that hides the entry.
pub open spec fn hides(line: Seq<char>) -> bool {
    lower(trim(line)) == "hidden=true"@
}

/// The entry does not run the command, or is hidden.
pub open spec fn is_stale(raw: Seq<char>, desired: Seq<char>) -> bool {
    let all = split(raw, '\n');
    ||| !(exists|i: int| 0 <= i < all.len() && runs(#[trigger] all[i], desired))
    ||| exists|i: int| 0 <= i < all.len() && hides(#[trigger] all[i])
}

/// Whether an autostart entry has to be written again: it does not run the
/// desired command, or it is hidden.
pub fn autostart_needs_rewrite(raw: &str, desired: &str) -> (r: bool)
    ensures
        r == is_stale(raw@, desired@),
{
    let all = split_on(raw, '\n');
    let ghost views = texts(all@);
    let mut exec_ok = false;
    let mut hidden = false;
    let mut i: usize = 0;
    while i < all.len()
        invariant
            i <= all.len(),
            views == texts(all@),
            exec_ok == (exists|j: int| 0 <= j < i && runs(#[trigger] views[j], desired@)),
            hidden == (exists|j: int| 0 <= j < i && hides(#[trigger] views[j])),
        decreases all.len() - i,
    {
        assert(views[i as int] == all@[i as int]@);
        let t = trimmed(all[i].as_str());
        if let Some(exec) = strip_prefix(t.as_str(), "Exec=") {
            if has_text(trimmed(exec.as_str()).as_str(), desired) {
                exec_ok = true;
                assert(runs(views[i as int], desired@));
            }
        }
        if same(lowered(t.as_str()).as_str(), "hidden=true") {
            hidden = true;
            assert(hides(views[i as int]));
        }
        i += 1;
    }
    !exec_ok || hidden
}

/// Whether there is an autostart entry.
pub fn autostart_enabled(host: &Host) -> (r: bool)
    ensures
        r == host.autostart,
{
    host.autostart
}

pub open spec fn autostart_steps(host: Host, enabled: bool) -> Seq<Step> {
    if enabled {
        seq![Step::WriteAutostart]
    } else if host.autostart {
        seq![Step::RemoveAutostart]
    } else {
        Seq::empty()
    }
}

/// Installs or removes the autostart entry.
pub fn set_autostart(host: &Host, enabled: bool) -> (r: Vec<Step>)
    ensures
        r@ == autostart_steps(*host, enabled),
        host_after_all(*host, r@) == (Host { autostart: enabled, ..*host }),
{
    let mut steps: Vec<Step> = Vec::new();
    if enabled {
        steps.push(Step::WriteAutostart);
    } else if host.autostart {
        steps.push(Step::RemoveAutostart);
    }
    assert(steps@ =~= autostart_steps(*host, enabled));
    proof {
        reveal_with_fuel(host_after_all, 2);
    }
    steps
}

/// Writes an autostart entry again that is stale. `raw` is the entry and
/// `desired` the command that it should run.
pub fn refresh_autostart(host: &Host, raw: &str, desired: &str) -> (r: Vec<Step>)
    ensures
        r@ == (if host.autostart && is_stale(raw@, desired@) {
            seq![Step::WriteAutostart]
        } else {
            Seq::empty()
        }),
        host_after_all(*host, r@) == *host,
{
    let mut steps: Vec<Step> = Vec::new();
    if host.autostart && autostart_needs_rewrite(raw, desired) {
        steps.push(Step::WriteAutostart);
        assert(steps@ =~= seq![Step::WriteAutostart]);
    }
    proof {
        reveal_with_fuel(host_after_all, 2);
    }
    steps
}

/// Whether a systemd user instance can be used: outside a sandbox, where its
/// socket exists or it answers.
pub fn systemd_available(flatpak: bool, socket: bool, answers: bool) -> (r: bool)
    ensures
        r == (!flatpak && (socket || answers)),
{
    !flatpak && (socket || answers)
}

/// Whether a unit of the service is installed, under either name.
pub fn systemd_enabled(host: &Host) -> (r: bool)
    ensures
        r == (host.current.installed || host.legacy.installed),
{
    host.current.installed || host.legacy.installed
}

/// Whether the supervisor's unit is installed.
pub fn systemd_unit_installed(host: &Host) -> (r: bool)
    ensures
        r == host.current.installed,
{
    host.current.installed
}

/// Whether a unit of the service is active, under either name.
pub fn systemd_running(host: &Host) -> (r: bool)
    ensures
        r == (host.current.active || host.legacy.active),
{
    host.current.active || host.legacy.active
}

/// Whether the supervisor's unit starts at login.
pub fn systemd_boot_enabled(host: &Host) -> (r: bool)
    ensures
        r == host.current.enabled,
{
    host.current.enabled
}

/// The host with the supervisor's unit installed and no legacy unit.
pub open spec fn deployed(host: Host) -> Host {
    Host {
        current: UnitState { installed: true, ..host.current },
        legacy: UnitState { installed: false, active: false, enabled: false },
        ..host
    }
}

pub open spec fn removal(state: UnitState, unit: Unit) -> Seq<Step> {
    if state.installed {
        seq![Step::RemoveUnit(unit)]
    } else {
        Seq::empty()
    }
}

pub open spec fn deploy_steps(host: Host) -> Seq<Step> {
    seq![Step::Stop(Unit::Legacy), Step::Disable(Unit::Legacy)] + removal(
        host.legacy,
        Unit::Legacy,
    ) + seq![Step::WriteUnit, Step::Reload]
}

/// Installs the supervisor's unit in place of a legacy one, without starting
/// or enabling it.
pub fn deploy_unit(host: &Host) -> (r: Vec<Step>)
    ensures
        r@ == deploy_steps(*host),
        host_after_all(*host, r@) == deployed(*host),
{
    let mut steps: Vec<Step> = vec![Step::Stop(Unit::Legacy), Step::Disable(Unit::Legacy)];
    if host.legacy.installed {
        steps.push(Step::RemoveUnit(Unit::Legacy));
    }
    steps.push(Step::WriteUnit);
    steps.push(Step::Reload);
    proof {
        assert(steps@ =~= deploy_steps(*host));
        if host.legacy.installed {
            lemma_five(*host, steps@);
        } else {
            lemma_four(*host, steps@);
        }
    }
    steps
}

proof fn lemma_split_steps(h: Host, a: Seq<Step>, b: Seq<Step>)
    ensures
        host_after_all(h, a + b) == host_after_all(host_after_all(h, a), b),
    decreases b.len(),
{
    if b.len() == 0 {
        assert(a + b =~= a);
    } else {
        assert((a + b).drop_last() =~= a + b.drop_last());
        lemma_split_steps(h, a, b.drop_last());
    }
}

proof fn lemma_four(h: Host, s: Seq<Step>)
    requires
        s.len() == 4,
    ensures
        host_after_all(h, s) == host_after(
            host_after(host_after(host_after(h, s[0]), s[1]), s[2]),
            s[3],
        ),
{
    reveal_with_fuel(host_after_all, 5);
}

proof fn lemma_five(h: Host, s: Seq<Step>)
    requires
        s.len() == 5,
    ensures
        host_after_all(h, s) == host_after(
            host_after(host_after(host_after(host_after(h, s[0]), s[1]), s[2]), s[3]),
            s[4],
        ),
{
    reveal_with_fuel(host_after_all, 6);
}

/// Stops the supervisor's unit.
pub fn systemd_stop() -> (r: Vec<Step>)
    ensures
        r@ == seq![Step::Stop(Unit::Current)],
{
    let r: Vec<Step> = vec![Step::Stop(Unit::Current)];
    assert(r@ =~= seq![Step::Stop(Unit::Current)]);
    r
}

/// Stops and disables the supervisor's unit, and keeps its file: the unit then
/// cannot race a standalone supervisor.
pub fn deactivate_systemd_service() -> (r: Vec<Step>)
    ensures
        r@ == seq![Step::Stop(Unit::Current), Step::Disable(Unit::Current)],
        forall|h: Host|
            #[trigger] host_after_all(h, r@) == (Host {
                current: UnitState { active: false, enabled: false, ..h.current },
                ..h
            }),
{
    let r: Vec<Step> = vec![Step::Stop(Unit::Current), Step::Disable(Unit::Current)];
    assert(r@ =~= seq![Step::Stop(Unit::Current), Step::Disable(Unit::Current)]);
    proof {
        reveal_with_fuel(host_after_all, 3);
    }
    r
}

/// Lets the supervisor's unit start at login, or not.
pub fn set_systemd_boot(enabled: bool) -> (r: Vec<Step>)
    ensures
        r@ == (if enabled {
            seq![Step::Enable(Unit::Current)]
        } else {
            seq![Step::Disable(Unit::Current)]
        }),
{
    let r: Vec<Step> = if enabled {
        vec![Step::Enable(Unit::Current)]
    } else {
        vec![Step::Disable(Unit::Current)]
    };
    assert(r@ =~= seq![r@[0]]);
    r
}

/// Hosts the service by systemd: installs, enables and starts the supervisor's
/// unit and removes the autostart entry, so that the two never race. `None`
/// where systemd cannot be used.
pub fn install_systemd_service(host: &Host) -> (r: Option<Vec<Step>>)
    ensures
        match r {
            Some(steps) => {
                &&& host.systemd
                &&& host_after_all(*host, steps@) == (Host {
                    systemd: true,
                    autostart: false,
                    current: UnitState { installed: true, active: true, enabled: true },
                    legacy: UnitState { installed: false, active: false, enabled: false },
                })
                &&& steps@ == deploy_steps(*host) + autostart_steps(*host, false) + seq![
                    Step::Enable(Unit::Current),
                    Step::Start(Unit::Current),
                ]
            },
            None => !host.systemd,
        },
{
    if !host.systemd {
        return None;
    }
    let mut steps = deploy_unit(host);
    let ghost a = steps@;
    let mut entry = set_autostart(host, false);
    let ghost b = entry@;
    steps.append(&mut entry);
    steps.push(Step::Enable(Unit::Current));
    steps.push(Step::Start(Unit::Current));
    proof {
        let c = seq![Step::Enable(Unit::Current), Step::Start(Unit::Current)];
        assert(steps@ =~= a + b + c);
        lemma_split_steps(*host, a + b, c);
        lemma_split_steps(*host, a, b);
        reveal_with_fuel(host_after_all, 3);
    }
    Some(steps)
}

/// Stops, disables and removes the service's units, under both names.
pub fn uninstall_systemd_service(host: &Host) -> (r: Vec<Step>)
    ensures
        host_after_all(*host, r@) == (Host {
            current: UnitState { installed: false, active: false, enabled: false },
            legacy: UnitState { installed: false, active: false, enabled: false },
            ..*host
        }),
        r@ == seq![
            Step::Stop(Unit::Current),
            Step::Disable(Unit::Current),
            Step::Stop(Unit::Legacy),
            Step::Disable(Unit::Legacy),
        ] + removal(host.current, Unit::Current) + removal(host.legacy, Unit::Legacy) + seq![
            Step::Reload,
        ],
{
    let mut steps: Vec<Step> = vec![
        Step::Stop(Unit::Current),
        Step::Disable(Unit::Current),
        Step::Stop(Unit::Legacy),
        Step::Disable(Unit::Legacy),
    ];
    let ghost a = steps@;
    let mut removals: Vec<Step> = Vec::new();
    if host.current.installed {
        removals.push(Step::RemoveUnit(Unit::Current));
    }
    if host.legacy.installed {
        removals.push(Step::RemoveUnit(Unit::Legacy));
    }
    removals.push(Step::Reload);
    let ghost b = removals@;
    steps.append(&mut removals);
    proof {
        assert(steps@ =~= a + b);
        lemma_split_steps(*host, a, b);
        lemma_four(*host, a);
        reveal_with_fuel(host_after_all, 4);
        assert(b =~= removal(host.current, Unit::Current) + removal(host.legacy, Unit::Legacy)
            + seq![Step::Reload]);
        assert(steps@ =~= a + removal(host.current, Unit::Current) + removal(
            host.legacy,
            Unit::Legacy,
        ) + seq![Step::Reload]);
    }
    steps
}

/// The message for a unit that did not start, with the beginning of its
/// status.
pub open spec fn start_failure_text(status: Seq<char>) -> Seq<char> {
    let all = lines(status);
    "systemd service failed to start:\n"@ + join_texts(
        all.take(if all.len() < 6 {
            all.len() as int
        } else {
            6
        }),
        "\n"@,
    )
}

/// The message for a unit that did not start.
pub fn start_failure(status: &str) -> (r: String)
    ensures
        r@ == start_failure_text(status@),
{
    let all = lines_of(status);
    assert(texts(all@).len() == all.len());
    let shown = joined_texts(&all, 6, "\n");
    concat("systemd service failed to start:\n", shown.as_str())
}

/// A line that neither begins with an `h` nor with whitespace, and does not
/// end in whitespace, hides nothing.
proof fn lemma_not_hidden(line: Seq<char>)
    requires
        line.len() > 0,
        !crate::text::is_space(line[0]),
        !crate::text::is_space(line.last()),
        crate::text::lower_char(line[0]) != 'h',
    ensures
        !hides(line),
{
    reveal_strlit("hidden=true");
    crate::text::lemma_trim_id(line);
    assert(lower(line)[0] == crate::text::lower_char(line[0]));
}

/// The line that runs a command.
proof fn lemma_exec_line(exec: Seq<char>)
    requires
        free_of(exec, '\n'),
        trim(exec) == exec,
    ensures
        free_of("Exec="@ + exec, '\n'),
        runs("Exec="@ + exec, exec),
        !hides("Exec="@ + exec),
{
    reveal_strlit("Exec=");
    let line = "Exec="@ + exec;
    assert forall|i: int| 0 <= i < line.len() implies #[trigger] line[i] != '\n' by {
        if i >= 5 {
            assert(line[i] == exec[i - 5]);
        }
    }
    if exec.len() > 0 {
        crate::text::lemma_trim_ends(exec);
        assert(line.last() == exec.last());
    } else {
        assert(line.last() == '=');
    }
    crate::text::lemma_trim_id(line);
    assert(line.skip(5) =~= exec);
    assert(line.subrange(0, 5) =~= "Exec="@);
    assert(exec.subrange(0, exec.len() as int) =~= exec);
    assert(crate::text::occurs_at(exec, exec, 0));
    lemma_not_hidden(line);
}

/// An entry that was written for a command is not stale: it runs the command
/// and is not hidden.
pub proof fn lemma_written_entry_is_fresh(exec: Seq<char>)
    requires
        free_of(exec, '\n'),
        trim(exec) == exec,
    ensures
        !is_stale(render(entry_lines(exec)), exec),
{
    let l = entry_lines(exec);
    let all = l.push(Seq::empty());
    lemma_exec_line(exec);
    assert(free_of("[Desktop Entry]"@, '\n') && !hides("[Desktop Entry]"@)) by {
        reveal_strlit("[Desktop Entry]");
        lemma_not_hidden("[Desktop Entry]"@);
    }
    assert(free_of("Type=Application"@, '\n') && !hides("Type=Application"@)) by {
        reveal_strlit("Type=Application");
        lemma_not_hidden("Type=Application"@);
    }
    assert(free_of("Name=Equinox background"@, '\n') && !hides("Name=Equinox background"@)) by {
        reveal_strlit("Name=Equinox background");
        lemma_not_hidden("Name=Equinox background"@);
    }
    assert(free_of("Comment=Keep the Equinox wallpaper daemon running"@, '\n') && !hides(
        "Comment=Keep the Equinox wallpaper daemon running"@,
    )) by {
        reveal_strlit("Comment=Keep the Equinox wallpaper daemon running");
        lemma_not_hidden("Comment=Keep the Equinox wallpaper daemon running"@);
    }
    assert(free_of("Terminal=false"@, '\n') && !hides("Terminal=false"@)) by {
        reveal_strlit("Terminal=false");
        lemma_not_hidden("Terminal=false"@);
    }
    assert(free_of("X-GNOME-Autostart-enabled=true"@, '\n') && !hides("X-GNOME-Autostart-enabled=true"@)) by {
        reveal_strlit("X-GNOME-Autostart-enabled=true");
        lemma_not_hidden("X-GNOME-Autostart-enabled=true"@);
    }
    assert forall|i: int| 0 <= i < l.len() implies free_of(#[trigger] l[i], '\n') by {
        assert(i == 0 || i == 1 || i == 2 || i == 3 || i == 4 || i == 5 || i == 6);
    }
    crate::text::lemma_split_render(l);
    assert(runs(all[4], exec));
    assert(!hides(Seq::<char>::empty())) by {
        reveal_strlit("hidden=true");
        assert(trim(Seq::<char>::empty()) =~= Seq::empty());
        assert(lower(Seq::<char>::empty()).len() == 0);
    }
    assert forall|i: int| 0 <= i < all.len() implies !hides(#[trigger] all[i]) by {
        assert(i == 0 || i == 1 || i == 2 || i == 3 || i == 4 || i == 5 || i == 6 || i == 7);
    }
}

/// Whatever was installed before, the service is started at login by one
/// mechanism only: by the unit once it is installed, and by the autostart
/// entry alone once the unit is deactivated and the entry written.
pub proof fn lemma_one_mechanism(host: Host)
    ensures
        ({
            let h = host_after_all(
                host,
                deploy_steps(host) + autostart_steps(host, false) + seq![
                    Step::Enable(Unit::Current),
                    Step::Start(Unit::Current),
                ],
            );
            !h.autostart && h.current.enabled && !h.legacy.enabled
        }),
        ({
            let h = host_after_all(
                host,
                seq![
                    Step::Stop(Unit::Current),
                    Step::Disable(Unit::Current),
                    Step::WriteAutostart,
                ],
            );
            h.autostart && !h.current.enabled && h.current.installed == host.current.installed
        }),
{
    let a = deploy_steps(host);
    let b = autostart_steps(host, false);
    let c = seq![Step::Enable(Unit::Current), Step::Start(Unit::Current)];
    lemma_split_steps(host, a + b, c);
    lemma_split_steps(host, a, b);
    if host.legacy.installed {
        lemma_five(host, a);
    } else {
        lemma_four(host, a);
    }
    reveal_with_fuel(host_after_all, 4);
}

} // verus!
