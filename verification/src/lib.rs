//! A local supervisor core for a desktop shell.
//!
//! The library decides, on every startup, whether bundled resources must be
//! (re-)extracted onto a writable location, plans safe extraction of archive
//! entries, rewrites machine-specific paths inside an extracted configuration,
//! resolves the executables of two supervised child processes, and tracks the
//! spawned processes in a registry that guarantees each one is signalled to
//! terminate exactly once on shutdown.
//!
//! All decisions are made here, over plain values, and are verified; the
//! surrounding shell performs the filesystem probes, the process spawns and
//! the termination signals that the decisions call for.

pub mod config;
pub mod control;
pub mod deploy;
pub mod extract;
pub mod launch;
pub mod paths;
pub mod registry;
