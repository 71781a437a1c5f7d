use vstd::prelude::*;
use crate::chain::{verdict, ChainStore, VerificationError};
use crate::pending::PendingOverlay;
use crate::types::{Block, BlockHash};

verus! {

/// The chain after offering candidate `b`: appended if it passes verification.
pub open spec fn ingest_step(chain: Seq<Block>, b: Block) -> Seq<Block> {
    if verdict(chain, b) is Ok {
        chain.push(b)
    } else {
        chain
    }
}

/// The chain after offering `bs` one after another.
pub open spec fn ingest_all(chain: Seq<Block>, bs: Seq<Block>) -> Seq<Block>
    decreases bs.len(),
{
    if bs.len() == 0 {
        chain
    } else {
        ingest_all(ingest_step(chain, bs[0]), bs.drop_first())
    }
}

/// Offering candidates in two runs, with a restart in between, commits the same
/// chain as offering them in one uninterrupted run.
pub proof fn lemma_restart_is_seamless(chain: Seq<Block>, first: Seq<Block>, second: Seq<Block>)
    ensures
        ingest_all(chain, first + second) == ingest_all(ingest_all(chain, first), second),
    decreases first.len(),
{
    if first.len() == 0 {
        assert(first + second =~= second);
    } else {
        assert((first + second)[0] == first[0]);
        assert((first + second).drop_first() =~= first.drop_first() + second);
        lemma_restart_is_seamless(ingest_step(chain, first[0]), first.drop_first(), second);
    }
}

/// The number of the next block to fetch: one past the head, read afresh from storage.
pub fn next_cursor(store: &ChainStore) -> (r: u64)
    ensures
        r == store@.len(),
{
    store.len() as u64
}

/// Offers candidate `b` to the chain; on success the pending slot is refreshed.
pub fn ingest(store: &mut ChainStore, pending: &mut PendingOverlay, b: Block) -> (r: Result<
    (),
    VerificationError,
>)
    requires
        old(store).wf(),
    ensures
        final(store).wf(),
        r == verdict(old(store)@, b),
        final(store)@ == ingest_step(old(store)@, b),
        final(pending).consistent_with(final(store)@),
{
    let r = store.apply(b);
    pending.refresh(store);
    r
}

/// Offers fetched blocks in order, as the block tracker does from its cursor on.
pub fn sync_batch(store: &mut ChainStore, pending: &mut PendingOverlay, blocks: Vec<Block>)
    requires
        old(store).wf(),
    ensures
        final(store).wf(),
        final(store)@ == ingest_all(old(store)@, blocks@),
{
    let mut rest = blocks;
    pending.refresh(store);
    while rest.len() > 0
        invariant
            store.wf(),
            ingest_all(store@, rest@) == ingest_all(old(store)@, blocks@),
        decreases rest@.len(),
    {
        let ghost before = rest@;
        let b = rest.remove(0);
        proof {
            assert(rest@ =~= before.drop_first());
        }
        let _ = ingest(store, pending, b);
    }
    proof {
        assert(rest@.len() == 0);
    }
}

/// Where the block that was committed came from.
#[derive(Clone, Copy, Debug, PartialEq, Eq, Structural)]
pub enum IngestOutcome {
    Primary,
    Gossiped { index: usize },
    Rejected,
}

/// Commits the block for the cursor, preferring the primary adapter's candidate and
/// falling back to the first gossiped candidate that passes verification.
pub fn ingest_candidates(
    store: &mut ChainStore,
    pending: &mut PendingOverlay,
    primary: Option<Block>,
    gossiped: Vec<Block>,
) -> (r: IngestOutcome)
    requires
        old(store).wf(),
    ensures
        final(store).wf(),
        final(pending).consistent_with(final(store)@),
        r is Primary <==> (primary matches Some(p) && verdict(old(store)@, p) is Ok),
        r is Primary ==> final(store)@ == old(store)@.push(primary.unwrap()),
        r matches IngestOutcome::Gossiped { index } ==> {
            &&& index < gossiped@.len()
            &&& verdict(old(store)@, gossiped@[index as int]) is Ok
            &&& forall|j: int| 0 <= j < index ==> verdict(old(store)@, #[trigger] gossiped@[j]) is Err
            &&& final(store)@ == old(store)@.push(gossiped@[index as int])
        },
        r is Rejected ==> {
            &&& forall|j: int| 0 <= j < gossiped@.len() ==> verdict(old(store)@, #[trigger] gossiped@[j]) is Err
            &&& final(store)@ == old(store)@
        },
{
    if let Some(p) = primary {
        if store.verify(&p).is_ok() {
            let _ = ingest(store, pending, p);
            return IngestOutcome::Primary;
        }
    }
    let mut candidates = gossiped;
    let mut i: usize = 0;
    while i < candidates.len()
        invariant
            candidates@ == gossiped@,
            i <= gossiped@.len(),
            store.wf(),
            store@ == old(store)@,
            !(primary matches Some(p) && verdict(old(store)@, p) is Ok),
            forall|j: int| 0 <= j < i ==> verdict(old(store)@, #[trigger] gossiped@[j]) is Err,
        decreases gossiped@.len() - i,
    {
        if store.verify(&candidates[i]).is_ok() {
            let b = candidates.remove(i);
            let _ = ingest(store, pending, b);
            return IngestOutcome::Gossiped { index: i };
        }
        i = i + 1;
    }
    pending.refresh(store);
    IngestOutcome::Rejected
}

/// What a block's broadcast to peers carries.
#[derive(Clone, Copy, Debug, PartialEq, Eq, Structural)]
pub struct BlockAnnouncement {
    pub number: u64,
    pub hash: BlockHash,
    pub parent_hash: BlockHash,
}

/// The announcement broadcast after `b` is committed.
pub fn announcement(b: &Block) -> (r: BlockAnnouncement)
    ensures
        r.number == b.header.number,
        r.hash == b.header.hash,
        r.parent_hash == b.header.parent_hash,
{
    BlockAnnouncement { number: b.header.number, hash: b.header.hash, parent_hash: b.header.parent_hash }
}

} // verus!
