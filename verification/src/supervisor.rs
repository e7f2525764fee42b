//! The supervisor, which keeps the service running.

use vstd::prelude::*;

use crate::text::{concat, texts};

verus! {

/// The service's program.
pub const DAEMON_BIN: &'static str = "equinox-daemon";

/// Milliseconds before a service that crashed is started again.
pub const RESTART_BACKOFF_MS: u64 = 500;

/// Whether a service that ended is started again: it crashed, and was not
/// asked to stop.
pub fn restarts(stopping: bool, success: bool) -> (r: bool)
    ensures
        r == (!stopping && !success),
{
    !stopping && !success
}

/// The program and the arguments that start the service: the program beside
/// the supervisor, else through flatpak, else by its name.
pub open spec fn command_for(
    sibling: Option<Seq<char>>,
    flatpak_id: Option<Seq<char>>,
) -> (Seq<char>, Seq<Seq<char>>) {
    match sibling {
        Some(path) => (path, Seq::empty()),
        None => match crate::json::filled(flatpak_id) {
            Some(app) => (
                "flatpak"@,
                seq!["run"@, "--command="@ + DAEMON_BIN@, app],
            ),
            None => (DAEMON_BIN@, Seq::empty()),
        },
    }
}

/// The program and the arguments that start the service. `sibling` is the
/// program beside the supervisor, if it is there.
pub fn daemon_command(sibling: Option<&str>, flatpak_id: Option<&str>) -> (r: (
    String,
    Vec<String>,
))
    ensures
        (r.0@, texts(r.1@)) == command_for(
            crate::i18n::opt_str(sibling),
            crate::i18n::opt_str(flatpak_id),
        ),
{
    let mut args: Vec<String> = Vec::new();
    assert(texts(args@) =~= Seq::empty());
    if let Some(path) = sibling {
        return (path.to_owned(), args);
    }
    if let Some(app) = flatpak_id {
        if !app.is_empty() {
            args.push("run".to_owned());
            args.push(concat("--command=", DAEMON_BIN));
            args.push(app.to_owned());
            assert(texts(args@) =~= seq!["run"@, "--command="@ + DAEMON_BIN@, app@]);
            return ("flatpak".to_owned(), args);
        }
    }
    (DAEMON_BIN.to_owned(), args)
}

} // verus!
