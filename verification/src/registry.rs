//! The process registry and reaper.
//!
//! A single table, one slot per process kind, owns the handles of all spawned
//! supervised processes. `register` inserts a freshly spawned process,
//! replacing any prior entry of the same kind; `terminate_all` drains the
//! table and returns the processes whose handles must be signalled, so that
//! every registered process is signalled exactly once however the host
//! application exits. The caller holds the registry behind one lock; the
//! exclusive borrow taken by each mutating method mirrors that single-owner
//! discipline.

use vstd::prelude::*;

verus! {

/// The two kinds of supervised child processes.
#[derive(Clone, Copy, PartialEq, Eq, Structural, Debug)]
pub enum ProcessKind {
    /// The long-running application server.
    Bridge,
    /// The tunnel / proxy client.
    Tunnel,
}

impl ProcessKind {
    /// The other of the two kinds.
    pub open spec fn spec_other(self) -> ProcessKind {
        match self {
            ProcessKind::Bridge => ProcessKind::Tunnel,
            ProcessKind::Tunnel => ProcessKind::Bridge,
        }
    }

    /// Executable counterpart of `spec_other`.
    pub fn other(self) -> (r: ProcessKind)
        ensures
            r == self.spec_other(),
    {
        match self {
            ProcessKind::Bridge => ProcessKind::Tunnel,
            ProcessKind::Tunnel => ProcessKind::Bridge,
        }
    }
}

/// One spawned supervised process: its kind and the opaque identifier under
/// which the surrounding shell knows the operating-system handle.
#[derive(Clone, Copy, PartialEq, Eq, Structural, Debug)]
pub struct SupervisedProcess {
    pub kind: ProcessKind,
    pub handle: u64,
}

/// The process-wide table `kind -> process`, at most one live entry per kind.
#[derive(Clone, Copy, PartialEq, Eq, Structural, Debug)]
pub struct ProcessRegistry {
    pub bridge: Option<SupervisedProcess>,
    pub tunnel: Option<SupervisedProcess>,
}

impl ProcessRegistry {
    /// The entry registered under a kind.
    pub open spec fn spec_entry(self, k: ProcessKind) -> Option<SupervisedProcess> {
        match k {
            ProcessKind::Bridge => self.bridge,
            ProcessKind::Tunnel => self.tunnel,
        }
    }

    /// No process is registered under any kind.
    pub open spec fn spec_is_empty(self) -> bool {
        self.bridge is None && self.tunnel is None
    }

    /// The table after inserting `p` under its kind.
    pub open spec fn spec_register(self, p: SupervisedProcess) -> ProcessRegistry {
        match p.kind {
            ProcessKind::Bridge => ProcessRegistry { bridge: Some(p), ..self },
            ProcessKind::Tunnel => ProcessRegistry { tunnel: Some(p), ..self },
        }
    }

    /// The processes that draining the table signals, bridge first.
    pub open spec fn spec_signalled(self) -> Seq<SupervisedProcess> {
        match (self.bridge, self.tunnel) {
            (Some(b), Some(t)) => seq![b, t],
            (Some(b), None) => seq![b],
            (None, Some(t)) => seq![t],
            (None, None) => seq![],
        }
    }

    /// The table after draining: empty.
    pub open spec fn spec_after_terminate(self) -> ProcessRegistry {
        ProcessRegistry { bridge: None, tunnel: None }
    }

    /// A fresh registry with no registered processes.
    pub fn new() -> (r: ProcessRegistry)
        ensures
            r.spec_is_empty(),
    {
        ProcessRegistry { bridge: None, tunnel: None }
    }

    /// Insert a spawned process under its kind, replacing any prior entry of
    /// that kind without signalling it; the other kind is untouched.
    pub fn register(&mut self, p: SupervisedProcess)
        ensures
            *final(self) == old(self).spec_register(p),
            final(self).spec_entry(p.kind) == Some(p),
            final(self).spec_entry(p.kind.spec_other()) == old(self).spec_entry(p.kind.spec_other()),
    {
        match p.kind {
            ProcessKind::Bridge => {
                self.bridge = Some(p);
            }
            ProcessKind::Tunnel => {
                self.tunnel = Some(p);
            }
        }
    }

    /// Look up the entry registered under a kind.
    pub fn get(&self, k: ProcessKind) -> (r: Option<SupervisedProcess>)
        ensures
            r == self.spec_entry(k),
    {
        match k {
            ProcessKind::Bridge => self.bridge,
            ProcessKind::Tunnel => self.tunnel,
        }
    }

    /// Whether no process is registered.
    pub fn is_empty(&self) -> (r: bool)
        ensures
            r == self.spec_is_empty(),
    {
        self.bridge.is_none() && self.tunnel.is_none()
    }

    /// Drain the table and return every registered process, bridge first:
    /// the caller signals each returned handle once. Safe on an empty table,
    /// and the table is empty afterwards, so no handle can be signalled a
    /// second time.
    pub fn terminate_all(&mut self) -> (sig: Vec<SupervisedProcess>)
        ensures
            *final(self) == old(self).spec_after_terminate(),
            final(self).spec_is_empty(),
            sig@ == old(self).spec_signalled(),
    {
        let mut sig: Vec<SupervisedProcess> = Vec::new();
        if let Some(b) = self.bridge {
            sig.push(b);
        }
        if let Some(t) = self.tunnel {
            sig.push(t);
        }
        self.bridge = None;
        self.tunnel = None;
        sig
    }
}

/// Draining an empty registry signals nothing and leaves it empty.
pub proof fn lemma_terminate_all_empty(r: ProcessRegistry)
    requires
        r.spec_is_empty(),
    ensures
        r.spec_signalled().len() == 0,
        r.spec_after_terminate() == r,
{
}

/// Draining twice is safe: the second drain signals nothing, since the first
/// leaves the table empty, and the table stays empty.
pub proof fn lemma_terminate_all_twice(r: ProcessRegistry)
    ensures
        r.spec_after_terminate().spec_signalled().len() == 0,
        r.spec_after_terminate().spec_after_terminate() == r.spec_after_terminate(),
{
}

/// With one process of each kind registered, draining signals both handles
/// and leaves the registry empty.
pub proof fn lemma_terminate_all_both(r: ProcessRegistry, b: SupervisedProcess, t: SupervisedProcess)
    requires
        r.spec_entry(ProcessKind::Bridge) == Some(b),
        r.spec_entry(ProcessKind::Tunnel) == Some(t),
    ensures
        r.spec_signalled() == seq![b, t],
        r.spec_after_terminate().spec_is_empty(),
{
}

/// Registering a process of one kind never disturbs the entry of the other
/// kind: a failed or missing launch of one process leaves the other running.
pub proof fn lemma_register_independent(r: ProcessRegistry, p: SupervisedProcess)
    ensures
        r.spec_register(p).spec_entry(p.kind) == Some(p),
        r.spec_register(p).spec_entry(p.kind.spec_other()) == r.spec_entry(p.kind.spec_other()),
{
}

} // verus!
