use vstd::prelude::*;
use crate::chain::ChainStore;
use crate::pending::PendingOverlay;
use crate::types::{Block, StateRoot};

verus! {

/// The settlement layer's claim that, as of `l1_block_number`, the execution layer
/// had reached `l2_block_number` with state root `l2_state_root`.
#[derive(Clone, Copy, Debug, PartialEq, Eq, Structural)]
pub struct Commitment {
    pub l1_block_number: u64,
    pub l2_block_number: u64,
    pub l2_state_root: StateRoot,
}

/// `c` is newer than the last commitment seen.
pub open spec fn is_newer(last: Option<Commitment>, c: Commitment) -> bool {
    match last {
        None => true,
        Some(l) => c.l1_block_number > l.l1_block_number,
    }
}

/// Follows the latest finalized commitment of the settlement layer.
pub struct L1Tracker {
    pub last_seen: Option<Commitment>,
}

impl L1Tracker {
    pub fn new() -> (r: L1Tracker)
        ensures
            r.last_seen is None,
    {
        L1Tracker { last_seen: None }
    }

    /// Takes the commitment the adapter reported; returns it to be emitted only when
    /// its settlement block is strictly later than the last one seen.
    pub fn observe(&mut self, c: Commitment) -> (r: Option<Commitment>)
        ensures
            is_newer(old(self).last_seen, c) ==> r == Some(c) && final(self).last_seen == Some(c),
            !is_newer(old(self).last_seen, c) ==> r is None && final(self).last_seen
                == old(self).last_seen,
    {
        let newer = match self.last_seen {
            None => true,
            Some(l) => c.l1_block_number > l.l1_block_number,
        };
        if newer {
            self.last_seen = Some(c);
            Some(c)
        } else {
            None
        }
    }
}

/// What the reconciliation of one commitment did.
#[derive(Clone, Copy, Debug, PartialEq, Eq, Structural)]
pub enum Reconciliation {
    /// The commitment is ahead of the local chain; it is kept for later.
    Deferred,
    /// The local block at the committed height has the committed root.
    Confirmed,
    /// The local chain contradicted the commitment and now holds `kept` blocks.
    Reverted { kept: u64 },
}

/// The highest height in `s` below `h`.
pub open spec fn best_below(s: Seq<u64>, h: u64) -> Option<u64>
    decreases s.len(),
{
    if s.len() == 0 {
        None
    } else {
        let r = best_below(s.drop_last(), h);
        if s.last() < h && (r matches Some(b) ==> s.last() > b) {
            Some(s.last())
        } else {
            r
        }
    }
}

/// How many blocks survive a contradiction at height `h`: those up to the highest
/// confirmed height below `h`, or else genesis alone (nothing when `h` is genesis).
pub open spec fn kept_after_revert(confirmed: Seq<u64>, h: u64) -> u64 {
    match best_below(confirmed, h) {
        Some(c) => (c + 1) as u64,
        None => if h > 0 {
            1
        } else {
            0
        },
    }
}

proof fn lemma_best_below_bounds(s: Seq<u64>, h: u64)
    ensures
        best_below(s, h) matches Some(b) ==> b < h,
        forall|x: u64| s.contains(x) && x < h ==> (best_below(s, h) matches Some(b) && x <= b),
    decreases s.len(),
{
    if s.len() > 0 {
        lemma_best_below_bounds(s.drop_last(), h);
        assert forall|x: u64| s.contains(x) && x < h implies (best_below(s, h) matches Some(b) && x <= b) by {
            let k = choose|k: int| 0 <= k < s.len() && s[k] == x;
            if k < s.len() - 1 {
                assert(s.drop_last()[k] == x);
                assert(s.drop_last().contains(x));
            } else {
                assert(s.last() == x);
            }
        }
    }
}

fn best_confirmed_below(confirmed: &Vec<u64>, h: u64) -> (r: Option<u64>)
    ensures
        r == best_below(confirmed@, h),
{
    let mut best: Option<u64> = None;
    let mut i: usize = 0;
    while i < confirmed.len()
        invariant
            i <= confirmed@.len(),
            best == best_below(confirmed@.subrange(0, i as int), h),
        decreases confirmed@.len() - i,
    {
        proof {
            assert(confirmed@.subrange(0, i + 1).drop_last() =~= confirmed@.subrange(0, i as int));
        }
        let x = confirmed[i];
        let better = match best {
            None => true,
            Some(b) => x > b,
        };
        if x < h && better {
            best = Some(x);
        }
        i = i + 1;
    }
    proof {
        assert(confirmed@.subrange(0, i as int) =~= confirmed@);
    }
    best
}

/// The heights of `confirmed` below `keep`, in their order.
fn confirmed_below(confirmed: &Vec<u64>, keep: u64) -> (r: Vec<u64>)
    ensures
        forall|x: u64| r@.contains(x) <==> confirmed@.contains(x) && x < keep,
{
    let mut out: Vec<u64> = Vec::new();
    let mut i: usize = 0;
    while i < confirmed.len()
        invariant
            i <= confirmed@.len(),
            forall|x: u64| out@.contains(x) <==> confirmed@.subrange(0, i as int).contains(x) && x < keep,
        decreases confirmed@.len() - i,
    {
        let x = confirmed[i];
        proof {
            let next = confirmed@.subrange(0, i + 1);
            assert(next =~= confirmed@.subrange(0, i as int).push(x));
            assert forall|y: u64| next.contains(y) <==> confirmed@.subrange(0, i as int).contains(y) || y == x by {
                if next.contains(y) {
                    let k = choose|k: int| 0 <= k < next.len() && next[k] == y;
                    if k < i {
                        assert(confirmed@.subrange(0, i as int)[k] == y);
                    }
                }
                if y == x {
                    assert(next[i as int] == y);
                }
                if confirmed@.subrange(0, i as int).contains(y) {
                    let k = choose|k: int| 0 <= k < i && confirmed@.subrange(0, i as int)[k] == y;
                    assert(next[k] == y);
                }
            }
        }
        let ghost before = out@;
        let ghost seen = confirmed@.subrange(0, i as int);
        let ghost next = confirmed@.subrange(0, i + 1);
        if x < keep {
            out.push(x);
            proof {
                assert forall|y: u64| out@.contains(y) <==> before.contains(y) || y == x by {
                    if out@.contains(y) {
                        let k = choose|k: int| 0 <= k < out@.len() && out@[k] == y;
                        if k < before.len() {
                            assert(before[k] == y);
                        }
                    }
                    if y == x {
                        assert(out@[before.len() as int] == y);
                    }
                    if before.contains(y) {
                        let k = choose|k: int| 0 <= k < before.len() && before[k] == y;
                        assert(out@[k] == y);
                    }
                }
            }
        }
        proof {
            assert forall|y: u64| out@.contains(y) <==> next.contains(y) && y < keep by {
                assert(next.contains(y) <==> seen.contains(y) || y == x);
                assert(before.contains(y) <==> seen.contains(y) && y < keep);
            }
        }
        i = i + 1;
    }
    proof {
        assert(confirmed@.subrange(0, i as int) =~= confirmed@);
    }
    out
}

/// What reconciling `c` against `chain` does, given the heights confirmed so far.
pub open spec fn reconcile_outcome(chain: Seq<Block>, confirmed: Seq<u64>, c: Commitment) -> Reconciliation {
    if c.l2_block_number >= chain.len() {
        Reconciliation::Deferred
    } else if chain[c.l2_block_number as int].header.state_root == c.l2_state_root {
        Reconciliation::Confirmed
    } else {
        Reconciliation::Reverted { kept: kept_after_revert(confirmed, c.l2_block_number) }
    }
}

/// The committed chain after a reconciliation with outcome `r`.
pub open spec fn chain_after(chain: Seq<Block>, r: Reconciliation) -> Seq<Block> {
    match r {
        Reconciliation::Reverted { kept } => chain.subrange(0, kept as int),
        _ => chain,
    }
}

/// A commitment that contradicts the stored root at its height truncates the chain
/// below that height in one reconciliation: what stays is a prefix of the old chain
/// with no block at or above the committed height.
pub proof fn lemma_commitment_precedence(chain: Seq<Block>, confirmed: Seq<u64>, c: Commitment)
    requires
        c.l2_block_number < chain.len(),
        chain[c.l2_block_number as int].header.state_root != c.l2_state_root,
    ensures
        chain_after(chain, reconcile_outcome(chain, confirmed, c)).len() <= c.l2_block_number,
        chain_after(chain, reconcile_outcome(chain, confirmed, c)) == chain.subrange(
            0,
            chain_after(chain, reconcile_outcome(chain, confirmed, c)).len() as int,
        ),
{
    lemma_best_below_bounds(confirmed, c.l2_block_number);
}

/// Discards every committed block from number `keep` on and empties the pending slot;
/// the block tracker then resumes at `keep`.
pub fn revert(store: &mut ChainStore, pending: &mut PendingOverlay, keep: u64)
    requires
        old(store).wf(),
        keep <= old(store)@.len(),
    ensures
        final(store).wf(),
        final(store)@ == old(store)@.subrange(0, keep as int),
        final(pending)@ is None,
{
    let count = store.len();
    proof {
        assert(keep <= count);
    }
    store.truncate(keep as usize);
    pending.clear();
}

/// Checks settlement-layer commitments against the committed chain.
pub struct Reconciler {
    /// The heights whose stored roots a commitment has confirmed.
    pub confirmed: Vec<u64>,
    /// A commitment ahead of the local chain, checked once the chain reaches it.
    pub deferred: Option<Commitment>,
}

impl Reconciler {
    pub fn new() -> (r: Reconciler)
        ensures
            r.confirmed@.len() == 0,
            r.deferred is None,
    {
        Reconciler { confirmed: Vec::new(), deferred: None }
    }

    /// Reconciles commitment `c` with `store`: defers it when the chain has not
    /// reached its height, confirms a matching root, and reverts the chain to below
    /// the committed height when the root differs.
    pub fn reconcile(&mut self, store: &mut ChainStore, pending: &mut PendingOverlay, c: Commitment) -> (r:
        Reconciliation)
        requires
            old(store).wf(),
        ensures
            final(store).wf(),
            r == reconcile_outcome(old(store)@, old(self).confirmed@, c),
            final(store)@ == chain_after(old(store)@, r),
            c.l2_block_number >= old(store)@.len() ==> {
                &&& r == Reconciliation::Deferred
                &&& final(store)@ == old(store)@
                &&& final(pending)@ == old(pending)@
                &&& final(self).deferred == Some(c)
                &&& final(self).confirmed@ == old(self).confirmed@
            },
            c.l2_block_number < old(store)@.len() && old(store)@[c.l2_block_number as int].header.state_root
                == c.l2_state_root ==> {
                &&& r == Reconciliation::Confirmed
                &&& final(store)@ == old(store)@
                &&& final(pending)@ == old(pending)@
                &&& final(self).deferred == old(self).deferred
                &&& final(self).confirmed@ == old(self).confirmed@.push(c.l2_block_number)
            },
            c.l2_block_number < old(store)@.len() && old(store)@[c.l2_block_number as int].header.state_root
                != c.l2_state_root ==> {
                let kept = kept_after_revert(old(self).confirmed@, c.l2_block_number);
                &&& r == (Reconciliation::Reverted { kept })
                &&& kept <= c.l2_block_number
                &&& final(store)@ == old(store)@.subrange(0, kept as int)
                &&& final(pending)@ is None
                &&& final(self).deferred == old(self).deferred
                &&& forall|x: u64|
                    final(self).confirmed@.contains(x) <==> old(self).confirmed@.contains(x) && x
                        < c.l2_block_number
            },
    {
        let h = c.l2_block_number;
        let header = match store.header(h) {
            None => {
                self.deferred = Some(c);
                return Reconciliation::Deferred;
            },
            Some(header) => header,
        };
        if header.state_root == c.l2_state_root {
            self.confirmed.push(h);
            Reconciliation::Confirmed
        } else {
            let best = best_confirmed_below(&self.confirmed, h);
            proof {
                lemma_best_below_bounds(self.confirmed@, h);
            }
            let kept: u64 = match best {
                Some(p) => p + 1,
                None => if h > 0 {
                    1
                } else {
                    0
                },
            };
            let ghost before = self.confirmed@;
            self.confirmed = confirmed_below(&self.confirmed, kept);
            proof {
                assert forall|x: u64| self.confirmed@.contains(x) <==> before.contains(x) && x < h by {
                    if before.contains(x) && x < h {
                        assert(best matches Some(b) && x <= b);
                    }
                }
            }
            revert(store, pending, kept);
            Reconciliation::Reverted { kept }
        }
    }

    /// Reconciles the deferred commitment once the chain has reached its height.
    pub fn recheck(&mut self, store: &mut ChainStore, pending: &mut PendingOverlay) -> (r: Option<
        Reconciliation,
    >)
        requires
            old(store).wf(),
        ensures
            final(store).wf(),
            match old(self).deferred {
                Some(c) if c.l2_block_number < old(store)@.len() => {
                    &&& r == Some(reconcile_outcome(old(store)@, old(self).confirmed@, c))
                    &&& final(store)@ == chain_after(old(store)@, r.unwrap())
                    &&& final(self).deferred is None
                },
                _ => r is None && final(store)@ == old(store)@ && final(pending)@ == old(pending)@
                    && final(self).deferred == old(self).deferred && final(self).confirmed@
                    == old(self).confirmed@,
            },
    {
        match self.deferred {
            Some(c) => {
                if c.l2_block_number < store.len() as u64 {
                    self.deferred = None;
                    Some(self.reconcile(store, pending, c))
                } else {
                    None
                }
            },
            None => None,
        }
    }
}

} // verus!
