//! The watcher daemon's decisions: what it watches, what it runs on a
//! change, when it runs again, and how startup went.

use vstd::prelude::*;
use crate::common::{join_path, uts_bin, MODULES, UTS};
use crate::text::{lit, views};

verus! {

/// The quiet period after running the commands, in milliseconds.
pub const DEBOUNCE_MS: u64 = 1000;

/// The path of the `uts` executable.
pub fn uts_bin_path() -> (r: String)
    ensures
        r@ == MODULES@ + seq!['/'] + UTS@ + seq!['/'] + "bin"@ + seq!['/'] + "uts"@,
{
    join_path(uts_bin().as_str(), "uts")
}

/// Which changes in a directory wake a watcher.
#[derive(PartialEq, Eq, Structural, Clone, Copy, Debug)]
pub enum WatchEvents {
    /// A directory is created in it.
    NewDirectory,
    /// An entry is created in it or deleted from it.
    CreateOrDelete,
}

/// A directory the daemon watches and the `uts` subcommands it then runs.
pub struct Watch {
    pub path: String,
    pub events: WatchEvents,
    pub commands: Vec<String>,
}

/// New modules (`/data/adb/modules_update`) are checked for conflicts;
/// installed or removed apps (`/data/app`) are checked for conflicts and
/// refresh the target list.
pub fn watches() -> (r: Vec<Watch>)
    ensures
        r@.len() == 2,
        r@[0].path@ == "/data/adb/modules_update"@,
        r@[0].events == WatchEvents::NewDirectory,
        views(r@[0].commands@) == seq!["conflict-mod"@],
        r@[1].path@ == "/data/app"@,
        r@[1].events == WatchEvents::CreateOrDelete,
        views(r@[1].commands@) == seq!["conflict-app"@, "target"@],
{
    let mut c0: Vec<String> = Vec::new();
    c0.push(lit("conflict-mod"));
    let mut c1: Vec<String> = Vec::new();
    c1.push(lit("conflict-app"));
    c1.push(lit("target"));
    assert(views(c0@) =~= seq!["conflict-mod"@]);
    assert(views(c1@) =~= seq!["conflict-app"@, "target"@]);
    let mut r: Vec<Watch> = Vec::new();
    r.push(Watch { path: lit("/data/adb/modules_update"), events: WatchEvents::NewDirectory, commands: c0 });
    r.push(Watch { path: lit("/data/app"), events: WatchEvents::CreateOrDelete, commands: c1 });
    r
}

/// Whether a change runs the commands: only when the last run is at least
/// [`DEBOUNCE_MS`] ago.
pub fn should_fire(since_last_ms: u64) -> (r: bool)
    ensures
        r == (since_last_ms >= DEBOUNCE_MS),
{
    since_last_ms >= DEBOUNCE_MS
}

/// How the watchers started.
#[derive(PartialEq, Eq, Structural, Clone, Copy, Debug)]
pub enum Startup {
    AllReady,
    Partial,
}

/// The daemon's startup, given whether each watcher started: all, some, or
/// none (the error "daemon: all watchers failed to start").
pub fn startup(ok1: bool, ok2: bool) -> (r: Result<Startup, String>)
    ensures
        ok1 && ok2 ==> r == Ok::<Startup, String>(Startup::AllReady),
        ok1 != ok2 ==> r == Ok::<Startup, String>(Startup::Partial),
        !ok1 && !ok2 ==> (r matches Err(e) && e@ == "daemon: all watchers failed to start"@),
{
    if ok1 && ok2 {
        Ok(Startup::AllReady)
    } else if ok1 || ok2 {
        Ok(Startup::Partial)
    } else {
        Err(lit("daemon: all watchers failed to start"))
    }
}

} // verus!
