//! Lifecycle of a dynamically loaded extension backend.
//!
//! An extension exports five entry points: attach, read, write, can_read
//! and detach.  The native calls themselves are opaque machine code and
//! run outside this library; what this module pins down is their order.
//! A session value stands for a loaded extension: it can only be created
//! by `attach`, every delegated operation is recorded on a live session,
//! and `detach` consumes the session.  Ownership therefore forces the
//! native mirror of this protocol to attach exactly once before any
//! operation and to detach exactly once at the end, on every path.

use vstd::prelude::*;

verus! {

/// One step of a plugin session's life.
#[derive(Debug, Clone, Copy, PartialEq, Eq, Structural)]
pub enum PluginEvent {
    /// The one attach call made at construction.
    Attach,
    /// A delegated read, write, or readability probe.
    Op,
    /// The one detach call made when the backend is discarded.
    Detach,
}

/// A live session's history: one attach first, operations after it,
/// no detach yet.
pub open spec fn live_trace(t: Seq<PluginEvent>) -> bool {
    &&& t.len() >= 1
    &&& t[0] is Attach
    &&& forall|i: int| 1 <= i < t.len() ==> (#[trigger] t[i]) is Op
}

/// A finished session's history: one attach first, one detach last, and
/// nothing but operations in between.
pub open spec fn trace_complete(t: Seq<PluginEvent>) -> bool {
    &&& t.len() >= 2
    &&& t[0] is Attach
    &&& t.last() is Detach
    &&& forall|i: int| 1 <= i < t.len() - 1 ==> (#[trigger] t[i]) is Op
}

/// Counts of native calls a finished session stands for.
#[derive(Debug, Clone, Copy, PartialEq, Eq, Structural)]
pub struct PluginReport {
    /// How many times the extension's attach entry point was due to run.
    pub attach_calls: u64,
    /// How many operations were delegated in between.
    pub op_calls: u64,
    /// How many times the detach entry point was due to run.
    pub detach_calls: u64,
}

/// A loaded extension's lifecycle state: created by `attach`, consumed by
/// `detach`.  The process id is cached at attach time.
pub struct PluginSession {
    pid: u32,
    ops: u64,
    trace: Ghost<Seq<PluginEvent>>,
}

impl PluginSession {
    /// The session's history of recorded steps.
    pub closed spec fn trace(self) -> Seq<PluginEvent> {
        self.trace@
    }

    /// The process id the session was attached to.
    pub closed spec fn spec_pid(self) -> u32 {
        self.pid
    }

    /// The operation counter.
    pub closed spec fn spec_ops(self) -> u64 {
        self.ops
    }

    /// A session is well formed while its history is a live trace and the
    /// operation counter matches it.
    pub open spec fn wf(self) -> bool {
        &&& live_trace(self.trace())
        &&& self.spec_ops() == self.trace().len() - 1
    }

    /// Begins a session: stands for the one native attach call, made at
    /// construction, before any operation can be delegated.
    pub fn attach(pid: u32) -> (s: Self)
        ensures
            s.wf(),
            s.spec_pid() == pid,
            s.trace() == seq![PluginEvent::Attach],
    {
        let ghost t: Seq<PluginEvent> = seq![PluginEvent::Attach];
        PluginSession { pid, ops: 0, trace: Ghost(t) }
    }

    /// Records one delegated operation.  Only a live session accepts it,
    /// so every operation falls after the attach and before the detach.
    pub fn record_op(&mut self)
        requires
            old(self).wf(),
            old(self).trace().len() < u64::MAX,
        ensures
            final(self).wf(),
            final(self).spec_pid() == old(self).spec_pid(),
            final(self).trace() == old(self).trace().push(PluginEvent::Op),
    {
        self.ops = self.ops + 1;
        proof {
            self.trace@ = self.trace@.push(PluginEvent::Op);
        }
    }

    /// The number of operations recorded so far.
    pub fn ops(&self) -> (r: u64)
        requires
            self.wf(),
        ensures
            r == self.trace().len() - 1,
    {
        self.ops
    }

    /// The cached process id of the attached target.
    pub fn id(&self) -> (r: u32)
        ensures
            r == self.spec_pid(),
    {
        self.pid
    }

    /// The fixed display name of an extension-backed target.
    pub fn name(&self) -> (r: String)
        ensures
            r@ == "[MANAGED]"@,
    {
        "[MANAGED]".to_owned()
    }

    /// Ends the session: stands for the one native detach call.  The
    /// session is consumed, so nothing can follow it and no second detach
    /// can ever run.
    pub fn detach(self) -> (r: PluginReport)
        requires
            self.wf(),
        ensures
            trace_complete(self.trace().push(PluginEvent::Detach)),
            r.attach_calls == 1,
            r.detach_calls == 1,
            r.op_calls == self.trace().len() - 1,
    {
        PluginReport { attach_calls: 1, op_calls: self.ops, detach_calls: 1 }
    }
}

/// Plugin lifecycle: in any completed session history the attach comes
/// exactly once and first, the detach comes exactly once and last, and
/// every delegated operation lies strictly between the two.
pub proof fn lemma_plugin_lifecycle(t: Seq<PluginEvent>)
    requires
        trace_complete(t),
    ensures
        t[0] is Attach,
        forall|i: int| 0 < i < t.len() ==> !((#[trigger] t[i]) is Attach),
        t.last() is Detach,
        forall|i: int| 0 <= i < t.len() - 1 ==> !((#[trigger] t[i]) is Detach),
        forall|i: int| 0 <= i < t.len() && (#[trigger] t[i]) is Op ==> 0 < i < t.len() - 1,
{
}

} // verus!
