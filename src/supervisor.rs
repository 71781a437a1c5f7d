use vstd::prelude::*;
use crate::chain::ChainStore;
use crate::reconcile::Commitment;
use crate::types::BlockNumber;

verus! {

/// Seconds to wait before a loop that failed is started again.
pub const RESET_DELAY_ON_FAILURE: u64 = 60;

/// How one of the synchronisation loops ended.
#[derive(Clone, Copy, Debug, PartialEq, Eq, Structural)]
pub enum LoopExit {
    /// It saw the shutdown signal after finishing its storage transaction.
    Shutdown,
    /// A transient failure: an adapter was unreachable or timed out.
    Failed,
    /// A revert could not be carried out: storage can no longer be trusted.
    RevertFailed,
}

/// What the supervisor does next with a loop that ended.
#[derive(Clone, Copy, Debug, PartialEq, Eq, Structural)]
pub enum SupervisorAction {
    Stop,
    RestartAfter { delay_secs: u64 },
    Halt,
}

/// Liveness and diagnostics of the synchronisation.
#[derive(Clone, Copy, Debug, PartialEq, Eq, Structural)]
pub struct SyncStatus {
    pub head: Option<BlockNumber>,
    pub last_commitment: Option<Commitment>,
    pub error_count: u64,
    pub halted: bool,
}

pub open spec fn next_action(halted: bool, exit: LoopExit, shutdown: bool) -> SupervisorAction {
    if shutdown || exit is Shutdown {
        SupervisorAction::Stop
    } else if halted || exit is RevertFailed {
        SupervisorAction::Halt
    } else {
        SupervisorAction::RestartAfter { delay_secs: RESET_DELAY_ON_FAILURE }
    }
}

impl SyncStatus {
    pub fn new() -> (r: SyncStatus)
        ensures
            r.head is None,
            r.last_commitment is None,
            r.error_count == 0,
            !r.halted,
    {
        SyncStatus { head: None, last_commitment: None, error_count: 0, halted: false }
    }

    /// Records the current head of `store`.
    pub fn record_head(&mut self, store: &ChainStore)
        requires
            store.wf(),
        ensures
            final(self).head == (if store@.len() == 0 {
                None::<BlockNumber>
            } else {
                Some(BlockNumber((store@.len() - 1) as u64))
            }),
            final(self).last_commitment == old(self).last_commitment,
            final(self).error_count == old(self).error_count,
            final(self).halted == old(self).halted,
    {
        self.head = store.head();
    }

    /// Records a commitment emitted by the settlement-layer tracker.
    pub fn record_commitment(&mut self, c: Commitment)
        ensures
            *final(self) == (SyncStatus { last_commitment: Some(c), ..*old(self) }),
    {
        self.last_commitment = Some(c);
    }

    /// Decides what happens to a loop that ended: stop on shutdown, halt for good
    /// after a failed revert, and otherwise restart after the fixed delay. Every
    /// failure is counted.
    pub fn on_loop_exit(&mut self, exit: LoopExit, shutdown: bool) -> (r: SupervisorAction)
        ensures
            r == next_action(old(self).halted, exit, shutdown),
            final(self).halted == (old(self).halted || (exit is RevertFailed)),
            final(self).error_count == (if exit is Shutdown {
                old(self).error_count
            } else {
                old(self).error_count.saturating_add(1)
            }),
            final(self).head == old(self).head,
            final(self).last_commitment == old(self).last_commitment,
    {
        match exit {
            LoopExit::Shutdown => {},
            LoopExit::Failed => {
                self.error_count = self.error_count.saturating_add(1);
            },
            LoopExit::RevertFailed => {
                self.error_count = self.error_count.saturating_add(1);
                self.halted = true;
            },
        }
        if shutdown || exit == LoopExit::Shutdown {
            SupervisorAction::Stop
        } else if self.halted {
            SupervisorAction::Halt
        } else {
            SupervisorAction::RestartAfter { delay_secs: RESET_DELAY_ON_FAILURE }
        }
    }
}

} // verus!
