//! The per-block analytical row derived while walking the chain: block
//! height, transaction count, quota used, and quota per transaction.
//! Fetching blocks and writing rows are external collaborators; only the
//! derivation is done here.

use vstd::prelude::*;

verus! {

/// One row of per-block analytics.
pub struct BlockRow {
    pub height: u64,
    pub txs_num: u64,
    pub quota_used: u64,
    pub quota_per_tx: u64,
}

/// Derives the analytical row for one block: the quota per transaction is
/// the integer quotient of quota used by transaction count, and zero for
/// an empty block.
pub fn block_row(height: u64, txs_num: u64, quota_used: u64) -> (r: BlockRow)
    ensures
        r.height == height,
        r.txs_num == txs_num,
        r.quota_used == quota_used,
        txs_num == 0 ==> r.quota_per_tx == 0,
        txs_num != 0 ==> r.quota_per_tx == quota_used as int / txs_num as int,
{
    let quota_per_tx: u64 = if txs_num == 0 { 0 } else { quota_used / txs_num };
    BlockRow { height, txs_num, quota_used, quota_per_tx }
}

} // verus!
