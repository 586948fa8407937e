//! The synchronization layer and storage substrate of a Byzantine-fault-tolerant
//! replicated ledger node: validators exchange authenticated, freshness-checked
//! catch-up requests for proposes, transactions, votes, commits and peer lists,
//! and agreed-upon blocks persist in a versioned, Merkle-committed key-value
//! store of immutable snapshots and atomically merged overlays.

use vstd::prelude::*;

pub mod crypto;
pub mod table;
pub mod order;
pub mod iter;
pub mod merkle;
pub mod store;
pub mod index;
pub mod state;
pub mod blockchain;
pub mod messages;
pub mod node;

verus! {

/// Compare two byte vectors for content equality.
pub fn bytes_eq(a: &Vec<u8>, b: &Vec<u8>) -> (r: bool)
    ensures
        r == (a@ == b@),
{
    if a.len() != b.len() {
        assert(a@ != b@);
        return false;
    }
    let n = a.len();
    let mut i: usize = 0;
    while i < n
        invariant
            n == a@.len() && n == b@.len(),
            0 <= i <= n,
            forall|j: int| 0 <= j < i ==> a@[j] == b@[j],
        decreases n - i,
    {
        if a[i] != b[i] {
            return false;
        }
        i = i + 1;
    }
    proof {
        assert(a@ =~= b@);
    }
    true
}

} // verus!
