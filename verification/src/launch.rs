//! The process launcher's decisions.
//!
//! Launching a supervised process means resolving its concrete executable
//! (the bundled location first, a development fallback second), assembling
//! the argument list and working directory, and directing both output
//! streams into a fresh per-process log file. The filesystem probes and the
//! spawn itself happen in the surrounding shell; every decision about them
//! is made here. A launch failure is fatal to that process only: the other
//! supervised process is never affected.

use vstd::prelude::*;

use crate::paths::views_of;
use crate::registry::{ProcessKind, SupervisedProcess};

verus! {

/// Why one process could not be launched.
#[derive(Clone, Copy, PartialEq, Eq, Structural, Debug)]
pub enum LaunchError {
    /// Neither the bundled nor the fallback location held the executable.
    ExecutableNotFound,
    /// The operating system refused the spawn.
    SpawnRejected,
}

/// Everything the shell needs to spawn one supervised process: the resolved
/// program, its argument list, its working directory, and the log file that
/// receives both output streams.
#[derive(Debug)]
pub struct LaunchPlan {
    pub program: Vec<u8>,
    pub args: Vec<Vec<u8>>,
    pub working_dir: Vec<u8>,
    pub log_path: Vec<u8>,
}

/// The bytes of the word `run`.
pub open spec fn spec_run_word() -> Seq<u8> {
    seq![114u8, 117u8, 110u8]
}

/// The bytes of the flag `--config`.
pub open spec fn spec_config_flag() -> Seq<u8> {
    seq![45u8, 45u8, 99u8, 111u8, 110u8, 102u8, 105u8, 103u8]
}

/// The word `run` as a byte vector.
fn run_word() -> (r: Vec<u8>)
    ensures
        r@ == spec_run_word(),
{
    let mut r: Vec<u8> = Vec::new();
    r.push(114);
    r.push(117);
    r.push(110);
    proof {
        assert(r@ =~= spec_run_word());
    }
    r
}

/// The flag `--config` as a byte vector.
fn config_flag() -> (r: Vec<u8>)
    ensures
        r@ == spec_config_flag(),
{
    let mut r: Vec<u8> = Vec::new();
    r.push(45);
    r.push(45);
    r.push(99);
    r.push(111);
    r.push(110);
    r.push(102);
    r.push(105);
    r.push(103);
    proof {
        assert(r@ =~= spec_config_flag());
    }
    r
}

/// Resolve the executable of one process: the bundled location wins when it
/// exists, the development fallback is tried second, and with neither the
/// launch fails — for this process only.
pub fn resolve_executable(
    bundled: Vec<u8>,
    bundled_exists: bool,
    fallback: Vec<u8>,
    fallback_exists: bool,
) -> (r: Result<Vec<u8>, LaunchError>)
    ensures
        bundled_exists ==> (r matches Ok(p) && p@ == bundled@),
        !bundled_exists && fallback_exists ==> (r matches Ok(p) && p@ == fallback@),
        !bundled_exists && !fallback_exists ==> r == Result::<Vec<u8>, LaunchError>::Err(
            LaunchError::ExecutableNotFound,
        ),
        r is Ok <==> (bundled_exists || fallback_exists),
{
    if bundled_exists {
        Ok(bundled)
    } else if fallback_exists {
        Ok(fallback)
    } else {
        Err(LaunchError::ExecutableNotFound)
    }
}

/// The launch plan of the application server: the runtime interpreter runs
/// the entry file, inside the deployed bundle directory, logging to the
/// server's own log file.
pub fn server_launch_plan(
    interpreter: Vec<u8>,
    entry_file: Vec<u8>,
    deployed_dir: Vec<u8>,
    log_path: Vec<u8>,
) -> (r: LaunchPlan)
    ensures
        r.program@ == interpreter@,
        views_of(r.args@) == seq![entry_file@],
        r.working_dir@ == deployed_dir@,
        r.log_path@ == log_path@,
{
    let ghost entry_bytes = entry_file@;
    let mut args: Vec<Vec<u8>> = Vec::new();
    args.push(entry_file);
    proof {
        assert(views_of(args@) =~~= seq![entry_bytes]);
    }
    LaunchPlan { program: interpreter, args, working_dir: deployed_dir, log_path }
}

/// The launch plan of the tunnel client: run mode, `--config` pointing at
/// the patched configuration, and the named tunnel, logging to the tunnel's
/// own log file.
pub fn tunnel_launch_plan(
    executable: Vec<u8>,
    config_path: Vec<u8>,
    tunnel_name: Vec<u8>,
    working_dir: Vec<u8>,
    log_path: Vec<u8>,
) -> (r: LaunchPlan)
    ensures
        r.program@ == executable@,
        views_of(r.args@) == seq![
            spec_run_word(),
            spec_config_flag(),
            config_path@,
            tunnel_name@,
        ],
        r.working_dir@ == working_dir@,
        r.log_path@ == log_path@,
{
    let ghost config_bytes = config_path@;
    let ghost name_bytes = tunnel_name@;
    let mut args: Vec<Vec<u8>> = Vec::new();
    args.push(run_word());
    args.push(config_flag());
    args.push(config_path);
    args.push(tunnel_name);
    proof {
        assert(views_of(args@) =~~= seq![
            spec_run_word(),
            spec_config_flag(),
            config_bytes,
            name_bytes,
        ]);
    }
    LaunchPlan { program: executable, args, working_dir, log_path }
}

/// Judge what the operating system's spawn attempt came back with: a handle
/// becomes the supervised process to register; a rejection is reported and
/// the process is simply never registered.
pub fn spawn_outcome(kind: ProcessKind, handle: Option<u64>) -> (r: Result<
    SupervisedProcess,
    LaunchError,
>)
    ensures
        (handle matches Some(h)) ==> r == Result::<SupervisedProcess, LaunchError>::Ok(
            SupervisedProcess { kind, handle: handle->0 },
        ),
        handle is None ==> r == Result::<SupervisedProcess, LaunchError>::Err(
            LaunchError::SpawnRejected,
        ),
{
    match handle {
        Some(h) => Ok(SupervisedProcess { kind, handle: h }),
        None => Err(LaunchError::SpawnRejected),
    }
}

} // verus!
