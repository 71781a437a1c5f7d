use vstd::prelude::*;

verus! {

/// Address of a contract on the execution layer.
#[derive(Clone, Copy, Debug, PartialEq, Eq, Structural)]
pub struct ContractAddress(pub u64);

/// Key of a storage slot inside a contract.
#[derive(Clone, Copy, Debug, PartialEq, Eq, Structural)]
pub struct StorageAddress(pub u64);

/// Value held in a storage slot.
#[derive(Clone, Copy, Debug, PartialEq, Eq, Structural)]
pub struct StorageValue(pub u64);

/// Hash identifying a block.
#[derive(Clone, Copy, Debug, PartialEq, Eq, Structural)]
pub struct BlockHash(pub u64);

/// Commitment to the whole execution-layer state after a block.
#[derive(Clone, Copy, Debug, PartialEq, Eq, Structural)]
pub struct StateRoot(pub u64);

/// Number of a block on the execution layer.
#[derive(Clone, Copy, Debug, PartialEq, Eq, Structural)]
pub struct BlockNumber(pub u64);

/// The value a slot holds before anything was written to it.
pub const ZERO_VALUE: u64 = 0;

/// The hash that the genesis block names as its parent.
pub const GENESIS_PARENT_HASH: u64 = 0;

/// The state root before any block was applied.
pub const EMPTY_STATE_ROOT: u64 = 0;

/// One write of a state diff: `contract`'s slot `key` now holds `value`.
#[derive(Clone, Copy, Debug, PartialEq, Eq, Structural)]
pub struct StorageEntry {
    pub contract: ContractAddress,
    pub key: StorageAddress,
    pub value: StorageValue,
}

/// The changes that one block makes to the chain state.
#[derive(Debug)]
pub struct StateDiff {
    pub storage: Vec<StorageEntry>,
    pub deployed: Vec<ContractAddress>,
}

/// The fixed-size part of a block.
#[derive(Clone, Copy, Debug, PartialEq, Eq, Structural)]
pub struct BlockHeader {
    pub number: u64,
    pub hash: BlockHash,
    pub parent_hash: BlockHash,
    pub state_root: StateRoot,
    pub timestamp: u64,
}

/// A block together with the state diff it applies.
#[derive(Debug)]
pub struct Block {
    pub header: BlockHeader,
    pub diff: StateDiff,
}

/// How a reader names the block whose state it wants.
#[derive(Clone, Copy, Debug, PartialEq, Eq, Structural)]
pub enum BlockId {
    Latest,
    Pending,
    Number(BlockNumber),
    Hash(BlockHash),
}

impl BlockId {
    pub fn is_pending(&self) -> (r: bool)
        ensures
            r == (*self is Pending),
    {
        match self {
            BlockId::Pending => true,
            _ => false,
        }
    }
}

/// The value of `key` of `contract` as set by a list of writes: the last write wins.
pub open spec fn entries_value(s: Seq<StorageEntry>, contract: ContractAddress, key: StorageAddress) -> Option<StorageValue>
    decreases s.len(),
{
    if s.len() == 0 {
        None
    } else if s.last().contract == contract && s.last().key == key {
        Some(s.last().value)
    } else {
        entries_value(s.drop_last(), contract, key)
    }
}

/// No two writes of `s` target the same slot of the same contract.
pub open spec fn keys_unique(s: Seq<StorageEntry>) -> bool {
    forall|i: int, j: int|
        0 <= i < j < s.len() ==> !(#[trigger] s[i].contract == #[trigger] s[j].contract && s[i].key
            == s[j].key)
}

impl StateDiff {
    /// Whether no slot is written twice.
    pub fn has_unique_keys(&self) -> (r: bool)
        ensures
            r == keys_unique(self.storage@),
    {
        let n = self.storage.len();
        let mut j: usize = 0;
        while j < n
            invariant
                n == self.storage@.len(),
                j <= n,
                forall|a: int, b: int|
                    0 <= a < b < j ==> !(#[trigger] self.storage@[a].contract
                        == #[trigger] self.storage@[b].contract && self.storage@[a].key
                        == self.storage@[b].key),
            decreases n - j,
        {
            let ej = self.storage[j];
            let mut i: usize = 0;
            while i < j
                invariant
                    n == self.storage@.len(),
                    j < n,
                    i <= j,
                    ej == self.storage@[j as int],
                    forall|a: int, b: int|
                        0 <= a < b < j ==> !(#[trigger] self.storage@[a].contract
                            == #[trigger] self.storage@[b].contract && self.storage@[a].key
                            == self.storage@[b].key),
                    forall|a: int|
                        0 <= a < i ==> !(#[trigger] self.storage@[a].contract == ej.contract
                            && self.storage@[a].key == ej.key),
                decreases j - i,
            {
                let ei = self.storage[i];
                if ei.contract == ej.contract && ei.key == ej.key {
                    return false;
                }
                i = i + 1;
            }
            j = j + 1;
        }
        true
    }

    /// The value that this diff writes to `key` of `contract`, if any.
    pub fn written_value(&self, contract: ContractAddress, key: StorageAddress) -> (r: Option<StorageValue>)
        ensures
            r == entries_value(self.storage@, contract, key),
    {
        let mut i: usize = self.storage.len();
        proof {
            assert(self.storage@.subrange(0, i as int) =~= self.storage@);
        }
        while i > 0
            invariant
                i <= self.storage@.len(),
                entries_value(self.storage@, contract, key)
                    == entries_value(self.storage@.subrange(0, i as int), contract, key),
            decreases i,
        {
            let e = self.storage[i - 1];
            proof {
                let s = self.storage@.subrange(0, i as int);
                assert(s.drop_last() =~= self.storage@.subrange(0, i - 1));
            }
            if e.contract == contract && e.key == key {
                return Some(e.value);
            }
            i = i - 1;
        }
        proof {
            assert(self.storage@.subrange(0, 0).len() == 0);
        }
        None
    }

    /// Whether this diff deploys `contract`.
    pub fn deploys(&self, contract: ContractAddress) -> (r: bool)
        ensures
            r == self.deployed@.contains(contract),
    {
        let mut i: usize = 0;
        while i < self.deployed.len()
            invariant
                i <= self.deployed@.len(),
                forall|j: int| 0 <= j < i ==> self.deployed@[j] != contract,
            decreases self.deployed@.len() - i,
        {
            if self.deployed[i] == contract {
                return true;
            }
            i = i + 1;
        }
        false
    }
}

} // verus!
