//! Process-lifecycle guard: the state behind the clean, idempotent
//! teardown of the encoder process and the ingest listener.
//!
//! The guard itself decides; the caller owns the encoder handle and
//! the ingest-stop handle and performs the decisions of each
//! [`CleanupPlan`] in order.  Killing or waiting on a process that
//! already exited must be tolerated by the caller as a benign no-op.

use vstd::prelude::*;

verus! {

/// The decisions of one run of the termination sequence, to be
/// performed in field order.
#[derive(PartialEq, Eq, Structural, Clone, Copy, Debug)]
pub struct CleanupPlan {
    /// Set the shared termination-requested flag.
    pub set_terminated: bool,
    /// Invoke the ingest listener's stop handle.
    pub signal_ingest_stop: bool,
    /// Kill the encoder process, tolerating one that already exited.
    pub kill_encoder: bool,
    /// Wait for the encoder process, logging but swallowing errors.
    pub wait_encoder: bool,
}

/// State of the guard that owns the encoder process.  `is_alive`
/// makes the ingest-listener signal happen at most once over any
/// number of termination calls.
pub struct ProcessCleanup {
    pub is_alive: bool,
}

impl ProcessCleanup {
    /// A fresh guard over a just-spawned encoder process.
    pub fn new() -> (g: ProcessCleanup)
        ensures
            g.is_alive,
    {
        ProcessCleanup { is_alive: true }
    }

    /// One run of the termination sequence.  The termination flag is
    /// set and the encoder is killed and waited on unconditionally;
    /// the ingest listener is signalled only on the first run, and
    /// only when its stop handle exists.
    pub fn kill(&mut self, stop_handle_present: bool) -> (p: CleanupPlan)
        ensures
            p.set_terminated,
            p.kill_encoder,
            p.wait_encoder,
            p.signal_ingest_stop == (old(self).is_alive && stop_handle_present),
            !final(self).is_alive,
    {
        let signal = self.is_alive && stop_handle_present;
        self.is_alive = false;
        CleanupPlan {
            set_terminated: true,
            signal_ingest_stop: signal,
            kill_encoder: true,
            wait_encoder: true,
        }
    }
}

/// How many ingest-stop signals a guard with aliveness `alive` emits
/// over one termination call per entry of `handle_present` (the entry
/// telling whether the stop handle existed at that call).
pub open spec fn ingest_stop_signals(alive: bool, handle_present: Seq<bool>) -> nat
    decreases handle_present.len(),
{
    if handle_present.len() == 0 {
        0
    } else {
        (if alive && handle_present[0] {
            1nat
        } else {
            0nat
        }) + ingest_stop_signals(false, handle_present.drop_first())
    }
}

/// Law: over any number of termination calls the ingest listener is
/// signalled at most once, and never once the guard has run before.
pub proof fn lemma_ingest_stop_at_most_once(alive: bool, handle_present: Seq<bool>)
    ensures
        ingest_stop_signals(alive, handle_present) <= 1,
        !alive ==> ingest_stop_signals(alive, handle_present) == 0,
    decreases handle_present.len(),
{
    if handle_present.len() > 0 {
        lemma_ingest_stop_at_most_once(false, handle_present.drop_first());
    }
}

} // verus!
