use vstd::prelude::*;
use crate::chain::{deployed_by, hash_position, lemma_hash_position_in_range, value_at, ChainStore};
use crate::pending::{pending_value, PendingOverlay};
use crate::types::{
    Block, BlockId, ContractAddress, StorageAddress, StorageValue, ZERO_VALUE,
};

verus! {

/// A request for the value of one storage slot at one block.
#[derive(Clone, Copy, Debug, PartialEq, Eq, Structural)]
pub struct GetStorageAtInput {
    pub contract_address: ContractAddress,
    pub key: StorageAddress,
    pub block_id: BlockId,
}

/// The value found.
#[derive(Clone, Copy, Debug, PartialEq, Eq, Structural)]
pub struct GetStorageOutput(pub StorageValue);

#[derive(Clone, Copy, Debug, PartialEq, Eq, Structural)]
pub enum GetStorageAtError {
    ContractNotFound,
    BlockNotFound,
}

/// The committed block that `id` names; `Pending` names the head.
pub open spec fn resolve(chain: Seq<Block>, id: BlockId) -> Option<int> {
    match id {
        BlockId::Number(n) => if n.0 < chain.len() {
            Some(n.0 as int)
        } else {
            None
        },
        BlockId::Hash(h) => hash_position(chain, h),
        _ => if chain.len() > 0 {
            Some(chain.len() - 1)
        } else {
            None
        },
    }
}

/// A read of committed storage: the block must exist, then an unwritten key of a
/// deployed contract reads as zero, and an undeployed contract is not found.
pub open spec fn committed_read(
    chain: Seq<Block>,
    id: BlockId,
    contract: ContractAddress,
    key: StorageAddress,
) -> Result<StorageValue, GetStorageAtError> {
    match resolve(chain, id) {
        None => Err(GetStorageAtError::BlockNotFound),
        Some(n) => match value_at(chain, n, contract, key) {
            Some(v) => Ok(v),
            None => if deployed_by(chain, n, contract) {
                Ok(StorageValue(ZERO_VALUE))
            } else {
                Err(GetStorageAtError::ContractNotFound)
            },
        },
    }
}

/// A read through the pending overlay: `Pending` asks the pending block first and
/// falls back to the head; every other id reads committed storage only.
pub open spec fn storage_read(
    chain: Seq<Block>,
    pending: Option<Block>,
    id: BlockId,
    contract: ContractAddress,
    key: StorageAddress,
) -> Result<StorageValue, GetStorageAtError> {
    if id is Pending && pending is Some && pending_value(pending.unwrap().diff, contract, key) is Some {
        Ok(pending_value(pending.unwrap().diff, contract, key).unwrap())
    } else {
        committed_read(chain, id, contract, key)
    }
}

pub open spec fn output_value(r: Result<GetStorageOutput, GetStorageAtError>) -> Result<StorageValue, GetStorageAtError> {
    match r {
        Ok(o) => Ok(o.0),
        Err(e) => Err(e),
    }
}

/// The value of the storage of `input.contract_address` at `input.key`, at the block
/// that `input.block_id` names.
pub fn get_storage_at(
    store: &ChainStore,
    pending: &PendingOverlay,
    input: GetStorageAtInput,
) -> (r: Result<GetStorageOutput, GetStorageAtError>)
    ensures
        output_value(r) == storage_read(store@, pending@, input.block_id, input.contract_address, input.key),
{
    if input.block_id.is_pending() {
        if let Some(value) = pending.value(input.contract_address, input.key) {
            return Ok(GetStorageOutput(value));
        }
    }
    let n = store.len();
    let at: u64 = match input.block_id {
        BlockId::Number(num) => {
            if num.0 >= n as u64 {
                return Err(GetStorageAtError::BlockNotFound);
            }
            num.0
        },
        BlockId::Hash(h) => {
            proof {
                lemma_hash_position_in_range(store@, h);
            }
            match store.find_hash(h) {
                Some(i) => i,
                None => return Err(GetStorageAtError::BlockNotFound),
            }
        },
        _ => {
            if n == 0 {
                return Err(GetStorageAtError::BlockNotFound);
            }
            (n - 1) as u64
        },
    };
    match store.storage_value_at(at, input.contract_address, input.key) {
        Some(value) => Ok(GetStorageOutput(value)),
        None => {
            if store.contract_exists_at(at, input.contract_address) {
                Ok(GetStorageOutput(StorageValue(ZERO_VALUE)))
            } else {
                Err(GetStorageAtError::ContractNotFound)
            }
        },
    }
}

/// Reads at a numbered, hashed or latest block do not depend on the pending slot.
pub proof fn lemma_pending_isolation(
    chain: Seq<Block>,
    first: Option<Block>,
    second: Option<Block>,
    id: BlockId,
    contract: ContractAddress,
    key: StorageAddress,
)
    requires
        !(id is Pending),
    ensures
        storage_read(chain, first, id, contract, key) == storage_read(chain, second, id, contract, key),
{
}

} // verus!
