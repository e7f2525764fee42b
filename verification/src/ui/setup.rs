//! The first-run setup: which sources are kept up to date, and how the
//! background service runs.

use vstd::prelude::*;

use crate::autostart::{Host, Step, Unit};
use crate::config::{clamped, with_setting, Config, DEFAULT_UPDATE_INTERVAL};
use crate::json::{with_member, JsonView};
use crate::source::{BuiltIn, Source};
use crate::text::same;

verus! {

/// How often the setup looks whether the service has come up.
pub const DAEMON_WAIT_TICKS: u32 = 20;

/// Milliseconds between two looks.
pub const DAEMON_WAIT_TICK_MS: u64 = 300;

/// The interval that is proposed for a source: an hour, and ten for Spotlight,
/// which changes several times a day.
pub fn default_interval(source: BuiltIn) -> (r: i64)
    ensures
        r == (if source == BuiltIn::Spotlight {
            36000
        } else {
            DEFAULT_UPDATE_INTERVAL
        }),
        clamped(r) == r,
{
    match source {
        BuiltIn::Spotlight => 36000,
        _ => DEFAULT_UPDATE_INTERVAL,
    }
}

/// What was chosen for a source.
#[derive(Clone, Copy, Debug, PartialEq, Eq, Structural)]
pub struct SourceChoice {
    pub source: BuiltIn,
    pub enabled: bool,
    pub interval: i64,
}

/// The document once the first `n` choices were stored.
pub open spec fn with_choices(
    m: Seq<(Seq<char>, JsonView)>,
    choices: Seq<SourceChoice>,
    n: int,
) -> Seq<(Seq<char>, JsonView)>
    decreases n,
{
    if n <= 0 {
        m
    } else {
        let before = with_choices(m, choices, n - 1);
        let c = choices[n - 1];
        with_setting(
            with_setting(
                before,
                c.source.spec_id(),
                "update-enabled"@,
                JsonView::Bool(c.enabled),
            ),
            c.source.spec_id(),
            "update-interval"@,
            JsonView::Int(clamped(c.interval) as int),
        )
    }
}

/// The enabled sources among the first `n` choices.
pub open spec fn enabled_among(choices: Seq<SourceChoice>, n: int) -> Seq<BuiltIn>
    decreases n,
{
    if n <= 0 {
        Seq::empty()
    } else if choices[n - 1].enabled {
        enabled_among(choices, n - 1).push(choices[n - 1].source)
    } else {
        enabled_among(choices, n - 1)
    }
}

/// Stores the choices and says which sources are to be updated at once.
pub fn store_choices(config: &mut Config, choices: &Vec<SourceChoice>) -> (r: Vec<BuiltIn>)
    ensures
        final(config)@ == with_choices(old(config)@, choices@, choices.len() as int),
        r@ == enabled_among(choices@, choices.len() as int),
        final(config).on_disk() == (old(config).on_disk() || choices.len() > 0),
        old(config).wf() ==> final(config).wf(),
{
    let ghost before = config@;
    let ghost ordered = config.wf();
    let ghost stored = config.on_disk();
    let mut out: Vec<BuiltIn> = Vec::new();
    let mut i: usize = 0;
    assert(out@ =~= enabled_among(choices@, 0));
    while i < choices.len()
        invariant
            i <= choices.len(),
            config@ == with_choices(before, choices@, i as int),
            out@ == enabled_among(choices@, i as int),
            ordered ==> config.wf(),
            config.on_disk() == (stored || i > 0),
        decreases choices.len() - i,
    {
        let c = choices[i];
        config.set_update_enabled(c.source.id(), c.enabled);
        config.set_update_interval(c.source.id(), c.interval);
        if c.enabled {
            out.push(c.source);
        }
        i += 1;
    }
    out
}

/// Whether to look again for the service, after so many looks.
pub fn keeps_waiting(running: bool, looks: u32) -> (r: bool)
    ensures
        r == (!running && looks < DAEMON_WAIT_TICKS),
{
    !running && looks < DAEMON_WAIT_TICKS
}

/// The document once the setup is over. No source is selected: opening the
/// program must not replace the user's wallpaper.
pub open spec fn finished(
    m: Seq<(Seq<char>, JsonView)>,
    mode: Seq<char>,
    autostart: bool,
) -> Seq<(Seq<char>, JsonView)> {
    with_member(
        with_member(
            with_member(
                with_member(m, "run-mode"@, JsonView::Str(mode)),
                "autostart"@,
                JsonView::Bool(autostart),
            ),
            "setup-done"@,
            JsonView::Bool(true),
        ),
        "wallpaper-source"@,
        JsonView::Str(""@),
    )
}

/// Stores how the service runs, and says what is to be done on the host.
pub fn finish(config: &mut Config, host: &Host, mode: &str, autostart: bool) -> (r: Vec<Step>)
    ensures
        final(config)@ == finished(old(config)@, mode@, autostart),
        final(config).on_disk(),
        old(config).wf() ==> final(config).wf(),
        r@ == (if mode@ == "systemd"@ {
            if host.systemd {
                crate::autostart::deploy_steps(*host) + crate::autostart::autostart_steps(
                    *host,
                    false,
                ) + seq![Step::Enable(Unit::Current), Step::Start(Unit::Current)]
            } else {
                Seq::empty()
            }
        } else if autostart {
            seq![Step::WriteAutostart]
        } else {
            Seq::empty()
        }),
{
    config.set_run_mode(mode);
    config.set_autostart(autostart);
    config.set_setup_done(true);
    config.set_wallpaper_source("");
    if same(mode, "systemd") {
        match crate::autostart::install_systemd_service(host) {
            Some(steps) => steps,
            None => {
                let none: Vec<Step> = Vec::new();
                assert(none@ =~= Seq::<Step>::empty());
                none
            },
        }
    } else if autostart {
        crate::autostart::set_autostart(host, true)
    } else {
        let none: Vec<Step> = Vec::new();
        assert(none@ =~= Seq::<Step>::empty());
        none
    }
}

/// The setup shows once: after it there is a configuration, and no source is
/// selected.
pub proof fn lemma_setup_leaves_wallpaper_alone(
    m: Seq<(Seq<char>, JsonView)>,
    mode: Seq<char>,
    autostart: bool,
)
    ensures
        crate::config::text_under(finished(m, mode, autostart), "wallpaper-source"@).len() == 0,
        crate::config::flag_under(finished(m, mode, autostart), "setup-done"@),
{
    reveal_strlit("");
    reveal_strlit("wallpaper-source");
    reveal_strlit("setup-done");
    let a = with_member(
        with_member(m, "run-mode"@, JsonView::Str(mode)),
        "autostart"@,
        JsonView::Bool(autostart),
    );
    let b = with_member(a, "setup-done"@, JsonView::Bool(true));
    crate::json::lemma_set_member(a, "setup-done"@, JsonView::Bool(true), "setup-done"@);
    crate::json::lemma_set_member(
        b,
        "wallpaper-source"@,
        JsonView::Str(""@),
        "wallpaper-source"@,
    );
    assert("wallpaper-source"@.len() != "setup-done"@.len());
    crate::json::lemma_set_member(b, "wallpaper-source"@, JsonView::Str(""@), "setup-done"@);
}

} // verus!
