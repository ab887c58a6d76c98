//! The epoch clock: which rotation the registry is in, and since when.

use vstd::prelude::*;

use crate::shared::TransactionId;

verus! {

/// One rotation period. `seq` is zero until the first rotation.
#[derive(Debug, PartialEq)]
pub struct Epoch {
    pub seq: u128,
    pub tx: TransactionId,
    pub height: u128,
}

impl Epoch {
    /// The epoch that follows this one, started by transaction `tx` at
    /// block `height`.
    pub fn next(&self, tx: TransactionId, height: u128) -> (r: Epoch)
        requires
            self.seq < u128::MAX,
        ensures
            r.seq == self.seq + 1,
            r.tx == tx,
            r.height == height,
    {
        Epoch { seq: self.seq + 1, tx, height }
    }
}

} // verus!
