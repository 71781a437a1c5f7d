use vstd::prelude::*;
use crate::types::{
    Block, BlockHash, BlockHeader, BlockNumber, ContractAddress, StateDiff, StorageAddress,
    StorageEntry, StorageValue, entries_value, keys_unique, EMPTY_STATE_ROOT, GENESIS_PARENT_HASH,
};

verus! {

/// Odd multiplier that spreads the bits of the previous root and of each write.
pub const ROOT_MULTIPLIER: u64 = 1099511628211;

/// Tag mixed into the digest of a deployment, so that it differs from a write.
pub const DEPLOY_TAG: u64 = 7;

pub open spec fn mix(a: u64, b: u64) -> u64 {
    a.wrapping_mul(ROOT_MULTIPLIER).wrapping_add(b)
}

pub open spec fn entry_digest(e: StorageEntry) -> u64 {
    mix(mix(e.contract.0, e.key.0), e.value.0)
}

/// Wrapping sum of the digests of the writes: the order of the writes does not matter.
pub open spec fn storage_digest(s: Seq<StorageEntry>) -> u64
    decreases s.len(),
{
    if s.len() == 0 {
        0
    } else {
        storage_digest(s.drop_last()).wrapping_add(entry_digest(s.last()))
    }
}

/// Wrapping sum of the digests of the deployments.
pub open spec fn deployed_digest(s: Seq<ContractAddress>) -> u64
    decreases s.len(),
{
    if s.len() == 0 {
        0
    } else {
        deployed_digest(s.drop_last()).wrapping_add(mix(DEPLOY_TAG, s.last().0))
    }
}

/// The state root after applying `d` on top of the state whose root is `prev`.
#[verifier::opaque]
pub open spec fn root_after(prev: u64, d: StateDiff) -> u64 {
    prev.wrapping_mul(ROOT_MULTIPLIER).wrapping_add(storage_digest(d.storage@)).wrapping_add(
        deployed_digest(d.deployed@),
    )
}

/// The root of the state that block `i` of `chain` is applied to.
pub open spec fn parent_root(chain: Seq<Block>, i: int) -> u64 {
    if i == 0 {
        EMPTY_STATE_ROOT
    } else {
        chain[i - 1].header.state_root.0
    }
}

/// The hash that block `i` of `chain` must name as its parent.
pub open spec fn expected_parent(chain: Seq<Block>, i: int) -> BlockHash {
    if i == 0 {
        BlockHash(GENESIS_PARENT_HASH)
    } else {
        chain[i - 1].header.hash
    }
}

/// Block `i` carries its number, names its predecessor, and claims the root that
/// its diff yields on its predecessor's root.
pub open spec fn linked_at(chain: Seq<Block>, i: int) -> bool {
    &&& chain[i].header.number == i
    &&& chain[i].header.parent_hash == expected_parent(chain, i)
    &&& keys_unique(chain[i].diff.storage@)
    &&& chain[i].header.state_root.0 == root_after(parent_root(chain, i), chain[i].diff)
}

pub open spec fn chain_wf(chain: Seq<Block>) -> bool {
    forall|i: int| 0 <= i < chain.len() ==> #[trigger] linked_at(chain, i)
}

/// The value of `key` of `contract` in the state after block `n`.
pub open spec fn value_at(chain: Seq<Block>, n: int, contract: ContractAddress, key: StorageAddress) -> Option<StorageValue>
    decreases n + 1,
{
    if n < 0 {
        None
    } else {
        match entries_value(chain[n].diff.storage@, contract, key) {
            Some(v) => Some(v),
            None => value_at(chain, n - 1, contract, key),
        }
    }
}

/// `contract` was deployed by block `n` or an earlier one.
pub open spec fn deployed_by(chain: Seq<Block>, n: int, contract: ContractAddress) -> bool {
    exists|j: int| 0 <= j <= n && #[trigger] chain[j].diff.deployed@.contains(contract)
}

/// The number of the first block of `chain` with hash `h`.
pub open spec fn hash_position(chain: Seq<Block>, h: BlockHash) -> Option<int>
    decreases chain.len(),
{
    if chain.len() == 0 {
        None
    } else {
        match hash_position(chain.drop_last(), h) {
            Some(i) => Some(i),
            None => if chain.last().header.hash == h {
                Some(chain.len() - 1)
            } else {
                None
            },
        }
    }
}

proof fn lemma_hash_position_prefix(chain: Seq<Block>, h: BlockHash, j: int)
    requires
        0 <= j <= chain.len(),
        hash_position(chain.subrange(0, j), h) is Some,
    ensures
        hash_position(chain, h) == hash_position(chain.subrange(0, j), h),
    decreases chain.len() - j,
{
    if j < chain.len() {
        let next = chain.subrange(0, j + 1);
        assert(next.drop_last() =~= chain.subrange(0, j));
        lemma_hash_position_prefix(chain, h, j + 1);
    } else {
        assert(chain.subrange(0, j) =~= chain);
    }
}

pub proof fn lemma_hash_position_in_range(chain: Seq<Block>, h: BlockHash)
    ensures
        hash_position(chain, h) matches Some(i) ==> 0 <= i < chain.len() && chain[i].header.hash == h,
    decreases chain.len(),
{
    if chain.len() > 0 {
        lemma_hash_position_in_range(chain.drop_last(), h);
    }
}

/// The root obtained by replaying the diffs of blocks `0..=n` from the empty state.
pub open spec fn replay_root(chain: Seq<Block>, n: int) -> u64
    decreases n + 1,
{
    if n < 0 {
        EMPTY_STATE_ROOT
    } else {
        root_after(replay_root(chain, n - 1), chain[n].diff)
    }
}

/// Every committed block but genesis names the hash of the block before it.
pub proof fn lemma_chain_linkage(chain: Seq<Block>)
    requires
        chain_wf(chain),
    ensures
        forall|n: int|
            0 < n < chain.len() ==> (#[trigger] chain[n]).header.parent_hash == chain[n - 1].header.hash,
{
    assert forall|n: int| 0 < n < chain.len() implies (#[trigger] chain[n]).header.parent_hash
        == chain[n - 1].header.hash by {
        assert(linked_at(chain, n));
    }
}

/// Replaying the diffs from genesis up to any committed block yields the root that
/// the block claims.
pub proof fn lemma_root_correctness(chain: Seq<Block>)
    requires
        chain_wf(chain),
    ensures
        forall|n: int| 0 <= n < chain.len() ==> #[trigger] replay_root(chain, n) == chain[n].header.state_root.0,
{
    assert forall|n: int| 0 <= n < chain.len() implies #[trigger] replay_root(chain, n)
        == chain[n].header.state_root.0 by {
        lemma_replay_prefix(chain, n);
    }
}

proof fn lemma_replay_prefix(chain: Seq<Block>, n: int)
    requires
        chain_wf(chain),
        0 <= n < chain.len(),
    ensures
        replay_root(chain, n) == chain[n].header.state_root.0,
    decreases n,
{
    assert(linked_at(chain, n));
    assert(replay_root(chain, n) == root_after(replay_root(chain, n - 1), chain[n].diff));
    if n > 0 {
        lemma_replay_prefix(chain, n - 1);
    } else {
        assert(replay_root(chain, -1) == EMPTY_STATE_ROOT);
    }
}

/// Why a candidate block was not accepted.
#[derive(Clone, Copy, Debug, PartialEq, Eq, Structural)]
pub enum VerificationError {
    WrongNumber,
    ParentHashMismatch,
    DuplicateKey,
    StateRootMismatch,
}

/// The verification outcome for candidate `b` on top of `chain`.
pub open spec fn verdict(chain: Seq<Block>, b: Block) -> Result<(), VerificationError> {
    if b.header.number != chain.len() {
        Err(VerificationError::WrongNumber)
    } else if b.header.parent_hash != expected_parent(chain, chain.len() as int) {
        Err(VerificationError::ParentHashMismatch)
    } else if !keys_unique(b.diff.storage@) {
        Err(VerificationError::DuplicateKey)
    } else if b.header.state_root.0 != root_after(parent_root(chain, chain.len() as int), b.diff) {
        Err(VerificationError::StateRootMismatch)
    } else {
        Ok(())
    }
}

fn digest_of_entry(e: StorageEntry) -> (r: u64)
    ensures
        r == entry_digest(e),
{
    e.contract.0.wrapping_mul(ROOT_MULTIPLIER).wrapping_add(e.key.0).wrapping_mul(
        ROOT_MULTIPLIER,
    ).wrapping_add(e.value.0)
}

/// Recomputes the root that `d` yields on top of a state with root `prev`.
pub fn compute_root(prev: u64, d: &StateDiff) -> (r: u64)
    ensures
        r == root_after(prev, *d),
{
    let mut acc: u64 = 0;
    let mut i: usize = 0;
    while i < d.storage.len()
        invariant
            i <= d.storage@.len(),
            acc == storage_digest(d.storage@.subrange(0, i as int)),
        decreases d.storage@.len() - i,
    {
        proof {
            assert(d.storage@.subrange(0, i + 1).drop_last() =~= d.storage@.subrange(0, i as int));
        }
        acc = acc.wrapping_add(digest_of_entry(d.storage[i]));
        i = i + 1;
    }
    proof {
        assert(d.storage@.subrange(0, i as int) =~= d.storage@);
    }
    let mut dep: u64 = 0;
    let mut j: usize = 0;
    while j < d.deployed.len()
        invariant
            j <= d.deployed@.len(),
            dep == deployed_digest(d.deployed@.subrange(0, j as int)),
        decreases d.deployed@.len() - j,
    {
        proof {
            assert(d.deployed@.subrange(0, j + 1).drop_last() =~= d.deployed@.subrange(0, j as int));
        }
        dep = dep.wrapping_add(DEPLOY_TAG.wrapping_mul(ROOT_MULTIPLIER).wrapping_add(d.deployed[j].0));
        j = j + 1;
    }
    proof {
        assert(d.deployed@.subrange(0, j as int) =~= d.deployed@);
    }
    proof {
        reveal(root_after);
    }
    prev.wrapping_mul(ROOT_MULTIPLIER).wrapping_add(acc).wrapping_add(dep)
}

/// Committed blocks, indexed by their number.
pub struct ChainStore {
    blocks: Vec<Block>,
}

impl View for ChainStore {
    type V = Seq<Block>;

    closed spec fn view(&self) -> Seq<Block> {
        self.blocks@
    }
}

impl ChainStore {
    pub open spec fn wf(&self) -> bool {
        chain_wf(self@)
    }

    pub fn new() -> (r: ChainStore)
        ensures
            r@ == Seq::<Block>::empty(),
            r.wf(),
    {
        ChainStore { blocks: Vec::new() }
    }

    /// Number of committed blocks, one more than the head's number.
    pub fn len(&self) -> (r: usize)
        ensures
            r == self@.len(),
    {
        self.blocks.len()
    }

    /// The highest committed block number, if any block is committed.
    pub fn head(&self) -> (r: Option<BlockNumber>)
        requires
            self.wf(),
        ensures
            r == (if self@.len() == 0 {
                None::<BlockNumber>
            } else {
                Some(BlockNumber((self@.len() - 1) as u64))
            }),
    {
        let n = self.blocks.len();
        if n == 0 {
            None
        } else {
            proof {
                assert(linked_at(self@, n - 1));
            }
            Some(BlockNumber(self.blocks[n - 1].header.number))
        }
    }

    /// The header of committed block `n`.
    pub fn header(&self, n: u64) -> (r: Option<BlockHeader>)
        ensures
            r == (if n < self@.len() {
                Some(self@[n as int].header)
            } else {
                None::<BlockHeader>
            }),
    {
        if n < self.blocks.len() as u64 {
            Some(self.blocks[n as usize].header)
        } else {
            None
        }
    }

    /// The verification gate that every candidate block passes before it is committed.
    pub fn verify(&self, b: &Block) -> (r: Result<(), VerificationError>)
        ensures
            r == verdict(self@, *b),
    {
        let n = self.blocks.len();
        if b.header.number != n as u64 {
            return Err(VerificationError::WrongNumber);
        }
        let (parent_hash, parent_root) = if n == 0 {
            (BlockHash(GENESIS_PARENT_HASH), EMPTY_STATE_ROOT)
        } else {
            (self.blocks[n - 1].header.hash, self.blocks[n - 1].header.state_root.0)
        };
        if b.header.parent_hash != parent_hash {
            return Err(VerificationError::ParentHashMismatch);
        }
        if !b.diff.has_unique_keys() {
            return Err(VerificationError::DuplicateKey);
        }
        if b.header.state_root.0 != compute_root(parent_root, &b.diff) {
            return Err(VerificationError::StateRootMismatch);
        }
        Ok(())
    }

    /// Verifies `b` and, if it passes, appends it as the new head.
    pub fn apply(&mut self, b: Block) -> (r: Result<(), VerificationError>)
        requires
            old(self).wf(),
        ensures
            final(self).wf(),
            r == verdict(old(self)@, b),
            r is Ok ==> final(self)@ == old(self)@.push(b),
            r is Err ==> final(self)@ == old(self)@,
    {
        let v = self.verify(&b);
        if v.is_err() {
            return v;
        }
        proof {
            let c = self@.push(b);
            assert forall|i: int| 0 <= i < c.len() implies #[trigger] linked_at(c, i) by {
                if i < self@.len() {
                    assert(linked_at(self@, i));
                }
            }
        }
        self.blocks.push(b);
        Ok(())
    }

    /// Discards every block from number `keep` on.
    pub fn truncate(&mut self, keep: usize)
        requires
            old(self).wf(),
            keep <= old(self)@.len(),
        ensures
            final(self).wf(),
            final(self)@ == old(self)@.subrange(0, keep as int),
    {
        proof {
            let c = self@.subrange(0, keep as int);
            assert forall|i: int| 0 <= i < c.len() implies #[trigger] linked_at(c, i) by {
                assert(linked_at(self@, i));
            }
        }
        self.blocks.truncate(keep);
    }

    /// The value of `key` of `contract` after block `n`, if it was ever written.
    pub fn storage_value_at(&self, n: u64, contract: ContractAddress, key: StorageAddress) -> (r: Option<StorageValue>)
        requires
            n < self@.len(),
        ensures
            r == value_at(self@, n as int, contract, key),
    {
        let count = self.blocks.len();
        let last: usize = n as usize;
        let mut i: usize = last + 1;
        while i > 0
            invariant
                i <= n + 1,
                n < self@.len(),
                value_at(self@, n as int, contract, key) == value_at(self@, i - 1, contract, key),
            decreases i,
        {
            let w = self.blocks[i - 1].diff.written_value(contract, key);
            if w.is_some() {
                return w;
            }
            i = i - 1;
        }
        None
    }

    /// Whether `contract` was deployed by block `n` or an earlier one.
    pub fn contract_exists_at(&self, n: u64, contract: ContractAddress) -> (r: bool)
        requires
            n < self@.len(),
        ensures
            r == deployed_by(self@, n as int, contract),
    {
        let count = self.blocks.len();
        let last: usize = n as usize;
        let mut j: usize = 0;
        while j <= last
            invariant
                last == n,
                count == self@.len(),
                n < self@.len(),
                j <= n + 1,
                forall|k: int| 0 <= k < j ==> !(#[trigger] self@[k].diff.deployed@.contains(contract)),
            decreases n + 1 - j,
        {
            if self.blocks[j].diff.deploys(contract) {
                return true;
            }
            j = j + 1;
        }
        false
    }

    /// The number of the first committed block with hash `h`.
    pub fn find_hash(&self, h: BlockHash) -> (r: Option<u64>)
        ensures
            r matches Some(n) ==> hash_position(self@, h) == Some(n as int),
            r is None ==> hash_position(self@, h) is None,
    {
        let mut i: usize = 0;
        while i < self.blocks.len()
            invariant
                i <= self@.len(),
                hash_position(self@.subrange(0, i as int), h) is None,
            decreases self@.len() - i,
        {
            proof {
                assert(self@.subrange(0, i + 1).drop_last() =~= self@.subrange(0, i as int));
            }
            if self.blocks[i].header.hash == h {
                proof {
                    lemma_hash_position_prefix(self@, h, i + 1);
                }
                return Some(i as u64);
            }
            i = i + 1;
        }
        proof {
            assert(self@.subrange(0, i as int) =~= self@);
        }
        None
    }
}

} // verus!
