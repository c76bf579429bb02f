//! The immutable ledger record: one block, created once per mining round and
//! never mutated afterwards.

use vstd::prelude::*;

verus! {

/// One ledger entry. The owner identifier is held as a fixed-width character
/// array of 25 characters, NUL-padded; longer identifiers are rejected where
/// the array is built (see `string_to_arr`), never truncated silently.
pub struct Block {
    pub index: i32,
    pub owner: [char; 25],
    pub timestamp: i32,
    pub transactions: Vec<String>,
    pub nonce: u64,
    pub prev_hash: Vec<u8>,
}

impl Block {
    /// Builds a block from its fields.
    pub fn new(
        index: i32,
        owner: [char; 25],
        timestamp: i32,
        transactions: Vec<String>,
        nonce: u64,
        prev_hash: Vec<u8>,
    ) -> (r: Block)
        ensures
            r.index == index,
            r.owner == owner,
            r.timestamp == timestamp,
            r.transactions == transactions,
            r.nonce == nonce,
            r.prev_hash == prev_hash,
    {
        Block { index, owner, timestamp, transactions, nonce, prev_hash }
    }
}

} // verus!
