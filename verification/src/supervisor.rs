//! Lifecycle of the single supervised backend process.
//!
//! The decisions live here as pure functions and a small state holder: where
//! the backend directory is for a given build mode and host, which
//! interpreter runs its entry point, and what a shutdown must do to the
//! stored handle. The host application performs the actual spawn and kill and
//! reports their outcomes back; it is expected to keep the `Supervisor` value
//! behind one mutual-exclusion lock for its whole lifetime.

use vstd::prelude::*;
use vstd::string::StringExecFns;

verus! {

/// How the application was built.
#[derive(Clone, Copy)]
pub enum BuildMode {
    Development,
    Packaged,
}

/// The operating system the application runs on.
#[derive(Clone, Copy)]
pub enum HostOs {
    Windows,
    MacOs,
    Linux,
}

/// The backend directory for a build mode and host: in development a fixed
/// path relative to the working directory; packaged, a directory beside the
/// running executable, except that a packaged build on the bundle layout of
/// `HostOs::MacOs` prefers the resources directory of the bundle when it is
/// present.
pub open spec fn backend_dir_spec(
    mode: BuildMode,
    host: HostOs,
    exe_dir: Seq<char>,
    resources_present: bool,
) -> Seq<char> {
    match mode {
        BuildMode::Development => "../backend"@,
        BuildMode::Packaged => match host {
            HostOs::MacOs => if resources_present {
                exe_dir + "/../Resources/backend"@
            } else {
                exe_dir + "/backend"@
            },
            _ => exe_dir + "/backend"@,
        },
    }
}

/// The designated entry point inside a backend directory.
pub open spec fn entry_point_spec(dir: Seq<char>) -> Seq<char> {
    dir + "/main.py"@
}

/// The interpreter executable per host.
pub open spec fn interpreter_spec(host: HostOs) -> Seq<char> {
    match host {
        HostOs::Windows => "python"@,
        _ => "python3"@,
    }
}

/// Everything the host application needs to try a spawn: where the backend
/// lives, the entry point to check for and run, and the interpreter to run it
/// with.
pub struct StartPlan {
    pub backend_dir: String,
    pub entry_point: String,
    pub interpreter: String,
}

/// The spawn plan for a build mode and host. `exe_dir` is the directory of
/// the running executable (used only by packaged builds) and
/// `resources_present` says whether the bundle's resources directory holds a
/// backend directory.
pub fn resolve_start_plan(
    mode: BuildMode,
    host: HostOs,
    exe_dir: &str,
    resources_present: bool,
) -> (p: StartPlan)
    ensures
        p.backend_dir@ == backend_dir_spec(mode, host, exe_dir@, resources_present),
        p.entry_point@ == entry_point_spec(backend_dir_spec(mode, host, exe_dir@, resources_present)),
        p.interpreter@ == interpreter_spec(host),
{
    let backend_dir: String = match mode {
        BuildMode::Development => String::from_str("../backend"),
        BuildMode::Packaged => match host {
            HostOs::MacOs => {
                if resources_present {
                    String::from_str(exe_dir).concat("/../Resources/backend")
                } else {
                    String::from_str(exe_dir).concat("/backend")
                }
            },
            _ => String::from_str(exe_dir).concat("/backend"),
        },
    };
    let entry_point = backend_dir.clone().concat("/main.py");
    let interpreter = match host {
        HostOs::Windows => String::from_str("python"),
        _ => String::from_str("python3"),
    };
    StartPlan { backend_dir, entry_point, interpreter }
}

/// The handle after a shutdown: always absent.
pub open spec fn stopped_handle(h: Option<u64>) -> Option<u64> {
    None
}

/// The kill a shutdown must issue: the stored handle, if any.
pub open spec fn stop_action(h: Option<u64>) -> Option<u64> {
    h
}

/// Stopping is safe to repeat: from any state, a stop leaves the handle
/// absent, and a further stop finds nothing to kill and leaves it absent
/// still. The same holds when no spawn ever succeeded, since the handle
/// starts out absent.
pub proof fn lemma_stop_idempotent(h: Option<u64>)
    ensures
        stopped_handle(h) is None,
        stop_action(stopped_handle(h)) is None,
        stopped_handle(stopped_handle(h)) is None,
{
}

/// The record of the one supervised process: at most one OS process id,
/// present exactly while a spawn has succeeded and no stop has run since.
pub struct Supervisor {
    child: Option<u64>,
}

impl View for Supervisor {
    type V = Option<u64>;

    closed spec fn view(&self) -> Option<u64> {
        self.child
    }
}

impl Supervisor {
    /// A fresh supervisor holds no process.
    pub fn new() -> (s: Self)
        ensures
            s@ is None,
    {
        Supervisor { child: None }
    }

    /// Record the process id of a successful spawn.
    pub fn on_spawned(&mut self, pid: u64)
        ensures
            final(self)@ == Some(pid),
    {
        self.child = Some(pid);
    }

    /// Record that the entry point was missing or the spawn failed: no
    /// process is held, and the failure is not surfaced as an error.
    pub fn on_spawn_failed(&mut self)
        ensures
            final(self)@ is None,
    {
        self.child = None;
    }

    /// Clear the stored handle and say which process the caller must now
    /// kill, if any. Calling this again, or without any successful spawn,
    /// finds nothing and is a no-op.
    pub fn stop(&mut self) -> (kill: Option<u64>)
        ensures
            final(self)@ == stopped_handle(old(self)@),
            kill == stop_action(old(self)@),
    {
        let kill = self.child;
        self.child = None;
        kill
    }

    /// Whether a spawn's process id is currently held.
    pub fn is_running(&self) -> (b: bool)
        ensures
            b == (self@ is Some),
    {
        self.child.is_some()
    }
}

} // verus!
