use vstd::prelude::*;
use crate::chain::{expected_parent, ChainStore};
use crate::types::{
    entries_value, Block, ContractAddress, StateDiff, StorageAddress, StorageValue, GENESIS_PARENT_HASH, ZERO_VALUE,
};

verus! {

/// What the pending diff `d` says of `key` of `contract`: its own write, or zero
/// where it deploys the contract without writing that key.
pub open spec fn pending_value(d: StateDiff, contract: ContractAddress, key: StorageAddress) -> Option<StorageValue> {
    match entries_value(d.storage@, contract, key) {
        Some(v) => Some(v),
        None => if d.deployed@.contains(contract) {
            Some(StorageValue(ZERO_VALUE))
        } else {
            None
        },
    }
}

/// A pending block may sit on top of `chain`: it is the next block and names the head.
pub open spec fn fits_on(chain: Seq<Block>, b: Block) -> bool {
    &&& b.header.number == chain.len()
    &&& b.header.parent_hash == expected_parent(chain, chain.len() as int)
}

fn fits(store: &ChainStore, b: &Block) -> (r: bool)
    ensures
        r == fits_on(store@, *b),
{
    let n = store.len();
    if b.header.number != n as u64 {
        false
    } else if n == 0 {
        b.header.parent_hash.0 == GENESIS_PARENT_HASH
    } else {
        match store.header((n - 1) as u64) {
            Some(h) => b.header.parent_hash == h.hash,
            None => false,
        }
    }
}

/// Why a block was not taken into the pending slot.
#[derive(Clone, Copy, Debug, PartialEq, Eq, Structural)]
pub enum PendingError {
    NotOnHead,
}

/// The pending slot: at most one block that is not committed yet.
pub struct PendingOverlay {
    slot: Option<Block>,
}

impl View for PendingOverlay {
    type V = Option<Block>;

    closed spec fn view(&self) -> Option<Block> {
        self.slot
    }
}

impl PendingOverlay {
    /// The slot is empty or holds a block that sits on the head of `chain`.
    pub open spec fn consistent_with(&self, chain: Seq<Block>) -> bool {
        self@ matches Some(b) ==> fits_on(chain, b)
    }

    pub fn new() -> (r: PendingOverlay)
        ensures
            r@ is None,
    {
        PendingOverlay { slot: None }
    }

    /// The block held in the slot, if any.
    pub fn pending_state(&self) -> (r: Option<&Block>)
        ensures
            r matches Some(b) ==> self@ == Some(*b),
            r is None ==> self@ is None,
    {
        match &self.slot {
            Some(b) => Some(b),
            None => None,
        }
    }

    pub fn clear(&mut self)
        ensures
            final(self)@ is None,
    {
        self.slot = None;
    }

    /// Puts `b` into the slot if it sits on the head of `store`; otherwise empties the slot.
    pub fn set(&mut self, store: &ChainStore, b: Block) -> (r: Result<(), PendingError>)
        ensures
            r is Ok <==> fits_on(store@, b),
            r is Ok ==> final(self)@ == Some(b),
            r is Err ==> final(self)@ is None,
            final(self).consistent_with(store@),
    {
        if fits(store, &b) {
            self.slot = Some(b);
            Ok(())
        } else {
            self.slot = None;
            Err(PendingError::NotOnHead)
        }
    }

    /// Empties the slot unless its block still sits on the head of `store`
    /// (after a commit or a revert).
    pub fn refresh(&mut self, store: &ChainStore)
        ensures
            final(self)@ == (if old(self)@ matches Some(b) && fits_on(store@, b) {
                old(self)@
            } else {
                None::<Block>
            }),
            final(self).consistent_with(store@),
    {
        let keep = match &self.slot {
            None => false,
            Some(b) => fits(store, b),
        };
        if !keep {
            self.slot = None;
        }
    }

    /// What the pending block says of `key` of `contract`.
    pub fn value(&self, contract: ContractAddress, key: StorageAddress) -> (r: Option<StorageValue>)
        ensures
            r == (match self@ {
                Some(b) => pending_value(b.diff, contract, key),
                None => None::<StorageValue>,
            }),
    {
        match &self.slot {
            None => None,
            Some(b) => {
                match b.diff.written_value(contract, key) {
                    Some(v) => Some(v),
                    None => if b.diff.deploys(contract) {
                        Some(StorageValue(ZERO_VALUE))
                    } else {
                        None
                    },
                }
            },
        }
    }
}

} // verus!
