//! The preferences: the language, and how the background service runs.

use vstd::prelude::*;

use crate::autostart::{
    autostart_steps, deactivate_systemd_service, deploy_steps, deploy_unit,
    install_systemd_service, Host, Step, Unit,
};
use crate::config::{settings_of, with_setting, Config};
use crate::json::{Json, JsonView};
use crate::path::{join, joined};
use crate::source::{or_int, SettingSpec, SettingView, SourceSettings};
use crate::text::{concat, same, texts};

verus! {

/// The languages that can be chosen, by locale name; `auto` follows the system.
pub open spec fn languages() -> Seq<Seq<char>> {
    seq!["auto"@, "en"@, "zh_CN"@, "yue"@, "lzh"@, "ja"@, "ru"@, "bo"@]
}

pub fn language_values() -> (r: Vec<&'static str>)
    ensures
        crate::source::str_texts(r@) == languages(),
{
    let r: Vec<&'static str> = vec!["auto", "en", "zh_CN", "yue", "lzh", "ja", "ru", "bo"];
    assert(crate::source::str_texts(r@) =~= languages());
    r
}

/// The first value that equals `value`, or 0.
pub open spec fn choice_index(values: Seq<Seq<char>>, value: Seq<char>, from: int) -> int
    decreases values.len() - from,
{
    if from >= values.len() {
        0
    } else if values[from] == value {
        from
    } else {
        choice_index(values, value, from + 1)
    }
}

/// The position of a value in a list of choices; the first one where it is not
/// among them.
pub fn selected(values: &Vec<&'static str>, value: &str) -> (r: usize)
    ensures
        r == choice_index(crate::source::str_texts(values@), value@, 0),
        values.len() > 0 ==> r < values.len(),
{
    let ghost all = crate::source::str_texts(values@);
    let mut i: usize = 0;
    while i < values.len()
        invariant
            i <= values.len(),
            all == crate::source::str_texts(values@),
            choice_index(all, value@, 0) == choice_index(all, value@, i as int),
        decreases values.len() - i,
    {
        if same(values[i], value) {
            return i;
        }
        i += 1;
    }
    0
}

/// The ways to run the service that can be chosen.
pub open spec fn hosting_modes(systemd: bool) -> Seq<Seq<char>> {
    if systemd {
        seq!["supervisor"@, "systemd"@]
    } else {
        seq!["supervisor"@]
    }
}

pub fn mode_values(systemd: bool) -> (r: Vec<&'static str>)
    ensures
        crate::source::str_texts(r@) == hosting_modes(systemd),
        r.len() > 0,
{
    let r: Vec<&'static str> = if systemd {
        vec!["supervisor", "systemd"]
    } else {
        vec!["supervisor"]
    };
    assert(crate::source::str_texts(r@) =~= hosting_modes(systemd));
    r
}

/// A unit of the service is installed or runs.
pub open spec fn hosted(h: Host) -> bool {
    h.current.installed || h.legacy.installed || h.current.active || h.legacy.active
}

/// How the service runs: as it is found, whatever is configured.
pub fn current_mode(host: &Host, configured: &str) -> (r: String)
    ensures
        r@ == (if hosted(*host) {
            "systemd"@
        } else {
            configured@
        }),
{
    if host.current.installed || host.legacy.installed || host.current.active
        || host.legacy.active {
        "systemd".to_owned()
    } else {
        configured.to_owned()
    }
}

/// The messages of the systemd row, to be translated.
#[derive(Debug)]
pub struct SystemdRow {
    pub installed: bool,
    pub running: bool,
    /// `Install` or `Uninstall`.
    pub deploy: &'static str,
    /// `Start` or `Stop`.
    pub toggle: &'static str,
    pub state: &'static str,
}

/// What the systemd row shows.
pub fn systemd_row(host: &Host) -> (r: SystemdRow)
    ensures
        r.installed == (host.current.installed || host.legacy.installed),
        r.running == (host.current.active || host.legacy.active),
        r.deploy@ == (if r.installed {
            "Uninstall"@
        } else {
            "Install"@
        }),
        r.toggle@ == (if r.running {
            "Stop"@
        } else {
            "Start"@
        }),
        r.state@ == (if !r.installed {
            "Not installed"@
        } else if r.running {
            "Installed and running"@
        } else {
            "Installed, not running"@
        }),
{
    let installed = host.current.installed || host.legacy.installed;
    let running = host.current.active || host.legacy.active;
    SystemdRow {
        installed,
        running,
        deploy: if installed {
            "Uninstall"
        } else {
            "Install"
        },
        toggle: if running {
            "Stop"
        } else {
            "Start"
        },
        state: if !installed {
            "Not installed"
        } else if running {
            "Installed and running"
        } else {
            "Installed, not running"
        },
    }
}

/// What choosing a way to run the service comes to.
#[derive(Clone, Copy, Debug, PartialEq, Eq, Structural)]
pub enum ModeChange {
    /// The choice cannot be honoured.
    Ignore,
    /// The service runs that way already: only remember the choice.
    Remember,
    /// Remember the choice and switch over.
    SwitchOver,
}

/// What choosing a way to run the service comes to. A legacy unit does not
/// count as running that way: it is migrated.
pub fn change_mode(host: &Host, value: &str) -> (r: ModeChange)
    ensures
        r == (if value@ == "systemd"@ && !host.systemd {
            ModeChange::Ignore
        } else if value@ == "systemd"@ && host.current.installed && (host.current.active
            || host.legacy.active) {
            ModeChange::Remember
        } else if value@ == "supervisor"@ && !hosted(*host) {
            ModeChange::Remember
        } else {
            ModeChange::SwitchOver
        }),
{
    let systemd = same(value, "systemd");
    if systemd && !host.systemd {
        return ModeChange::Ignore;
    }
    if systemd && host.current.installed && (host.current.active || host.legacy.active) {
        return ModeChange::Remember;
    }
    let any = host.current.installed || host.legacy.installed || host.current.active
        || host.legacy.active;
    if same(value, "supervisor") && !any {
        return ModeChange::Remember;
    }
    ModeChange::SwitchOver
}

/// A step of a switch between the ways to run the service.
#[derive(Debug)]
pub enum SwitchStep {
    /// Stop a supervisor or a service that runs on its own.
    KillStandalone,
    /// Let the others end.
    Wait,
    Take(Step),
    /// Start a supervisor on its own.
    SpawnSupervisor,
    /// Report that systemd cannot be used.
    Unavailable,
}

pub open spec fn taken(steps: Seq<Step>) -> Seq<SwitchStep> {
    steps.map_values(|s: Step| SwitchStep::Take(s))
}

fn push_steps(out: &mut Vec<SwitchStep>, steps: &Vec<Step>)
    ensures
        final(out)@ == old(out)@ + taken(steps@),
{
    let ghost before = out@;
    let ghost all = taken(steps@);
    let mut i: usize = 0;
    assert(out@ =~= before + all.take(0));
    while i < steps.len()
        invariant
            i <= steps.len(),
            all == taken(steps@),
            out@ == before + all.take(i as int),
        decreases steps.len() - i,
    {
        out.push(SwitchStep::Take(steps[i]));
        assert(all.take(i + 1) =~= all.take(i as int).push(all[i as int]));
        assert(out@ =~= before + all.take(i + 1));
        i += 1;
    }
    assert(all.take(i as int) =~= all);
}

/// The steps that switch the service over to another way to run, so that the
/// two ways never race: what hosts it now ends first.
pub open spec fn switch_steps(host: Host, mode: Seq<char>) -> Seq<SwitchStep> {
    if mode != "systemd"@ {
        taken(seq![Step::Stop(Unit::Current), Step::Disable(Unit::Current)]) + seq![
            SwitchStep::Wait,
            SwitchStep::SpawnSupervisor,
        ]
    } else if !host.systemd {
        seq![SwitchStep::KillStandalone, SwitchStep::Wait, SwitchStep::Unavailable]
    } else {
        seq![SwitchStep::KillStandalone, SwitchStep::Wait] + taken(
            deploy_steps(host) + autostart_steps(host, false) + seq![
                Step::Enable(Unit::Current),
                Step::Start(Unit::Current),
            ],
        )
    }
}

/// The steps that switch the service over to another way to run. Where systemd
/// is wanted and cannot be used, the last one reports that.
pub fn switch_backend(host: &Host, mode: &str) -> (r: Vec<SwitchStep>)
    ensures
        r@ == switch_steps(*host, mode@),
{
    let mut out: Vec<SwitchStep> = Vec::new();
    if same(mode, "systemd") {
        out.push(SwitchStep::KillStandalone);
        out.push(SwitchStep::Wait);
        assert(out@ =~= seq![SwitchStep::KillStandalone, SwitchStep::Wait]);
        match install_systemd_service(host) {
            None => out.push(SwitchStep::Unavailable),
            Some(steps) => push_steps(&mut out, &steps),
        }
    } else {
        let steps = deactivate_systemd_service();
        push_steps(&mut out, &steps);
        out.push(SwitchStep::Wait);
        out.push(SwitchStep::SpawnSupervisor);
    }
    assert(out@ =~= switch_steps(*host, mode@));
    out
}

/// How the service is started: the unit is written anew, which heals one with
/// a stale command, and started; `None` where a supervisor is to be spawned
/// instead, as it is where a step fails.
pub fn start_daemon(host: &Host, run_mode: &str) -> (r: Option<Vec<Step>>)
    ensures
        match r {
            Some(steps) => run_mode@ == "systemd"@ && steps@ == deploy_steps(*host) + seq![
                Step::Enable(Unit::Current),
                Step::Start(Unit::Current),
            ],
            None => run_mode@ != "systemd"@,
        },
{
    if !same(run_mode, "systemd") {
        return None;
    }
    let mut steps = deploy_unit(host);
    steps.push(Step::Enable(Unit::Current));
    steps.push(Step::Start(Unit::Current));
    assert(steps@ =~= deploy_steps(*host) + seq![
        Step::Enable(Unit::Current),
        Step::Start(Unit::Current),
    ]);
    Some(steps)
}

/// What the switch for starting at login changes.
#[derive(Clone, Copy, Debug, PartialEq, Eq, Structural)]
pub enum LoginSwitch {
    /// Whether the unit is enabled.
    Unit,
    /// The autostart entry.
    Entry,
}

/// What the switch for starting at login changes, and whether it is on.
pub fn login_switch(mode: &str, host: &Host, autostart: bool) -> (r: (LoginSwitch, bool))
    ensures
        r == (if mode@ == "systemd"@ {
            (LoginSwitch::Unit, host.current.enabled)
        } else {
            (LoginSwitch::Entry, autostart)
        }),
{
    if same(mode, "systemd") {
        (LoginSwitch::Unit, host.current.enabled)
    } else {
        (LoginSwitch::Entry, autostart)
    }
}

/// The commands that may start a program in the background, best first: the
/// program and its arguments.
pub open spec fn spawn_commands(
    bin: Seq<char>,
    flatpak_id: Option<Seq<char>>,
    in_sandbox: bool,
    appdir: Option<Seq<char>>,
) -> Seq<Seq<Seq<char>>> {
    match crate::json::filled(flatpak_id) {
        Some(app) => if in_sandbox {
            seq![seq![joined("/app/bin"@, bin)]]
        } else {
            seq![seq!["flatpak"@, "run"@, "--command="@ + bin, app]]
        },
        None => match appdir {
            Some(dir) => seq![seq![joined(joined(dir, "usr/bin"@), bin)], seq![bin]],
            None => seq![seq![bin]],
        },
    }
}

pub open spec fn command_texts(commands: Seq<Vec<String>>) -> Seq<Seq<Seq<char>>> {
    Seq::new(commands.len(), |i: int| texts(commands[i]@))
}

fn one(s: String) -> (r: Vec<String>)
    ensures
        texts(r@) == seq![s@],
{
    let mut v: Vec<String> = Vec::new();
    let ghost t = s@;
    v.push(s);
    assert(texts(v@) =~= seq![t]);
    v
}

/// The commands that may start a program in the background, best first.
/// `in_sandbox` says whether the program is in the sandbox's directory.
pub fn spawn_background(
    bin: &str,
    flatpak_id: Option<&str>,
    in_sandbox: bool,
    appdir: Option<&str>,
) -> (r: Vec<Vec<String>>)
    ensures
        command_texts(r@) == spawn_commands(
            bin@,
            crate::i18n::opt_str(flatpak_id),
            in_sandbox,
            crate::i18n::opt_str(appdir),
        ),
{
    let mut out: Vec<Vec<String>> = Vec::new();
    if let Some(app) = flatpak_id {
        if !app.is_empty() {
            if in_sandbox {
                out.push(one(join("/app/bin", bin)));
            } else {
                let mut command: Vec<String> = Vec::new();
                command.push("flatpak".to_owned());
                command.push("run".to_owned());
                command.push(concat("--command=", bin));
                command.push(app.to_owned());
                assert(texts(command@) =~= seq!["flatpak"@, "run"@, "--command="@ + bin@, app@]);
                out.push(command);
            }
            assert(command_texts(out@) =~= spawn_commands(
                bin@,
                crate::i18n::opt_str(flatpak_id),
                in_sandbox,
                crate::i18n::opt_str(appdir),
            ));
            return out;
        }
    }
    if let Some(dir) = appdir {
        out.push(one(join(join(dir, "usr/bin").as_str(), bin)));
    }
    out.push(one(bin.to_owned()));
    assert(command_texts(out@) =~= spawn_commands(
        bin@,
        crate::i18n::opt_str(flatpak_id),
        in_sandbox,
        crate::i18n::opt_str(appdir),
    ));
    out
}

/// Sets the size of Lorem Picsum's images to that of the screen, as far as the
/// user has not chosen one.
pub fn auto_fill_picsum_size(config: &mut Config, width: i32, height: i32)
    ensures
        ({
            let m = old(config)@;
            let own = settings_of(m, "picsum"@);
            let a = if or_int(crate::json::int_in(crate::json::lookup(own, "width"@)), 0) <= 0 {
                with_setting(m, "picsum"@, "width"@, JsonView::Int(width as int))
            } else {
                m
            };
            let b = if or_int(crate::json::int_in(crate::json::lookup(own, "height"@)), 0) <= 0 {
                with_setting(a, "picsum"@, "height"@, JsonView::Int(height as int))
            } else {
                a
            };
            &&& final(config)@ == b
            &&& final(config).on_disk() == (old(config).on_disk() || or_int(
                crate::json::int_in(crate::json::lookup(own, "width"@)),
                0,
            ) <= 0 || or_int(crate::json::int_in(crate::json::lookup(own, "height"@)), 0) <= 0)
        }),
        old(config).wf() ==> final(config).wf(),
{
    let settings = config.settings_for("picsum");
    if settings.get_i64("width", 0) <= 0 {
        config.set_source_setting("picsum", "width", Json::Int(width as i64));
    }
    if settings.get_i64("height", 0) <= 0 {
        config.set_source_setting("picsum", "height", Json::Int(height as i64));
    }
}

/// The value that a control starts with.
#[derive(Debug)]
pub enum Initial {
    Text(String),
    Number(i64),
    Flag(bool),
    /// The position among the choices.
    Choice(usize),
}

pub open spec fn bounded(n: i64, min: i64, max: i64) -> i64 {
    if n < min {
        min
    } else if n > max {
        max
    } else {
        n
    }
}

pub open spec fn first_choice(
    choices: Seq<(Seq<char>, Seq<char>)>,
    value: Seq<char>,
    from: int,
) -> int
    decreases choices.len() - from,
{
    if from >= choices.len() {
        0
    } else if choices[from].0 == value {
        from
    } else {
        first_choice(choices, value, from + 1)
    }
}

/// The value that the control of a setting starts with: what is configured,
/// within the bounds of the setting, else its default.
pub fn initial_value(settings: &SourceSettings, spec: &SettingSpec) -> (r: Initial)
    ensures
        match spec@ {
            SettingView::String { key, default, .. } => r matches Initial::Text(t) && t@
                == settings.str_at(key, default),
            SettingView::Int { key, default, min, max, .. } => r == Initial::Number(
                bounded(settings.i64_at(key, default), min, max),
            ),
            SettingView::Bool { key, default, .. } => r == Initial::Flag(
                settings.bool_at(key, default),
            ),
            SettingView::Choice { key, choices, default, .. } => r matches Initial::Choice(i) && i
                == first_choice(choices, settings.str_at(key, default), 0),
        },
{
    match spec {
        SettingSpec::String { key, default, .. } => Initial::Text(settings.get_str(key, default)),
        SettingSpec::Int { key, default, min, max, .. } => {
            let n = settings.get_i64(key, *default);
            let held: i64 = if n < *min {
                *min
            } else if n > *max {
                *max
            } else {
                n
            };
            Initial::Number(held)
        },
        SettingSpec::Bool { key, default, .. } => Initial::Flag(settings.get_bool(key, *default)),
        SettingSpec::Choice { key, choices, default, .. } => {
            let value = settings.get_str(key, default);
            let ghost views = crate::source::choice_views(choices@);
            let mut i: usize = 0;
            while i < choices.len()
                invariant
                    i <= choices.len(),
                    views == crate::source::choice_views(choices@),
                    spec@ is Choice,
                    value@ == settings.str_at(spec@->Choice_key, spec@->Choice_default),
                    spec@->Choice_choices == views,
                    first_choice(views, value@, 0) == first_choice(views, value@, i as int),
                decreases choices.len() - i,
            {
                if same(choices[i].0, value.as_str()) {
                    return Initial::Choice(i);
                }
                i += 1;
            }
            Initial::Choice(0)
        },
    }
}

} // verus!
