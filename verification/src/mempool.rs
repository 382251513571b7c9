//! Synthetic mempool load: batches of random transactions.

use vstd::prelude::*;
use crate::content::Transaction;
use crate::rng::{entropy_rng, random_bytes};

verus! {

/// `count` transactions of `size` random bytes each.
pub fn generate_transactions(count: usize, size: usize) -> (out: Vec<Transaction>)
    ensures
        out@.len() == count,
        forall|i: int| 0 <= i < count ==> (#[trigger] out@[i]).0@.len() == size,
{
    let mut transactions: Vec<Transaction> = Vec::new();
    let mut rng = entropy_rng();
    let mut i: usize = 0;
    while i < count
        invariant
            0 <= i <= count,
            transactions@.len() == i,
            forall|j: int| 0 <= j < i ==> (#[trigger] transactions@[j]).0@.len() == size,
        decreases count - i,
    {
        let tx_bytes = random_bytes(&mut rng, size);
        transactions.push(Transaction::new(tx_bytes));
        i += 1;
    }
    transactions
}

} // verus!
