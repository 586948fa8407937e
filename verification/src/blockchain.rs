use vstd::prelude::*;
use crate::merkle::copy_bytes;
use crate::store::Snapshot;
use crate::index::{MapIndex, ListIndex, list_wf, list_len_of, list_view_of, list_elem_key};

verus! {

/// The name of the heights list: height to block hash, append-only.
pub open spec fn heights_name() -> Seq<u8> {
    seq![1u8]
}

/// The name of the proposes table: propose hash to raw propose, write-once.
pub open spec fn proposes_name() -> Seq<u8> {
    seq![2u8]
}

/// The name of the transactions table: transaction hash to raw transaction.
pub open spec fn transactions_name() -> Seq<u8> {
    seq![3u8]
}

/// The name of the precommit list of one block hash.
pub open spec fn precommits_name(block_hash: Seq<u8>) -> Seq<u8> {
    seq![4u8] + block_hash
}

fn heights_name_exec() -> (r: Vec<u8>)
    ensures
        r@ == heights_name(),
{
    let mut r: Vec<u8> = Vec::new();
    r.push(1u8);
    proof {
        assert(r@ =~= heights_name());
    }
    r
}

fn proposes_name_exec() -> (r: Vec<u8>)
    ensures
        r@ == proposes_name(),
{
    let mut r: Vec<u8> = Vec::new();
    r.push(2u8);
    proof {
        assert(r@ =~= proposes_name());
    }
    r
}

fn transactions_name_exec() -> (r: Vec<u8>)
    ensures
        r@ == transactions_name(),
{
    let mut r: Vec<u8> = Vec::new();
    r.push(3u8);
    proof {
        assert(r@ =~= transactions_name());
    }
    r
}

fn precommits_name_exec(block_hash: &Vec<u8>) -> (r: Vec<u8>)
    ensures
        r@ == precommits_name(block_hash@),
{
    let mut r: Vec<u8> = Vec::new();
    r.push(4u8);
    let mut b = copy_bytes(block_hash);
    r.append(&mut b);
    proof {
        assert(r@ =~= precommits_name(block_hash@));
    }
    r
}

/// Read-only accessors over the durable store: committed block hashes by
/// height, precommit sets by block hash, proposes and transactions by hash.
/// The writer side belongs to the consensus commit logic, outside this crate;
/// the facade only guarantees consistent, isolated reads of a snapshot.
pub struct Blockchain {
    pub snap: Snapshot,
}

impl Blockchain {
    /// The snapshot binds each key once, its heights list is dense, and so is
    /// every per-block precommit list.
    pub open spec fn wf(&self) -> bool {
        self.snap.wf() && list_wf(self.snap@, heights_name()) && (forall|bh: Seq<u8>|
            bh.len() == 32 ==> list_wf(self.snap@, #[trigger] precommits_name(bh)))
    }

    /// A facade over a snapshot.
    pub fn new(snap: Snapshot) -> (r: Blockchain)
        ensures
            r.snap == snap,
    {
        Blockchain { snap }
    }

    /// The heights list: position is the height, the value its block hash.
    pub fn heights(&self) -> (r: ListIndex)
        ensures
            r.wf(),
            r.name@ == heights_name(),
    {
        ListIndex::new(heights_name_exec())
    }

    /// The proposes table, keyed by propose hash.
    pub fn proposes(&self) -> (r: MapIndex)
        ensures
            r.wf(),
            r.name@ == proposes_name(),
    {
        MapIndex::new(proposes_name_exec())
    }

    /// The transactions table, keyed by transaction hash.
    pub fn transactions(&self) -> (r: MapIndex)
        ensures
            r.wf(),
            r.name@ == transactions_name(),
    {
        MapIndex::new(transactions_name_exec())
    }

    /// The precommit list of one block hash.
    pub fn precommits(&self, block_hash: &Vec<u8>) -> (r: ListIndex)
        requires
            block_hash@.len() == 32,
        ensures
            r.wf(),
            r.name@ == precommits_name(block_hash@),
    {
        ListIndex::new(precommits_name_exec(block_hash))
    }

    /// The block hash committed at a height, if that height is in the list.
    pub fn height_hash(&self, height: u64) -> (r: Option<&Vec<u8>>)
        requires
            self.wf(),
        ensures
            match r {
                Some(v) => self.snap@.contains_key(list_elem_key(heights_name(), height)) && v@
                    == self.snap@[list_elem_key(heights_name(), height)],
                None => !self.snap@.contains_key(list_elem_key(heights_name(), height)),
            },
            height < list_len_of(self.snap@, heights_name()) ==> r is Some,
    {
        self.heights().get(&self.snap, height)
    }

    /// Every raw precommit stored for a block hash, in list order.
    pub fn precommits_list(&self, block_hash: &Vec<u8>) -> (r: Vec<Vec<u8>>)
        requires
            self.wf(),
            block_hash@.len() == 32,
        ensures
            r@.len() == list_len_of(self.snap@, precommits_name(block_hash@)),
            forall|i: int|
                0 <= i < r@.len() ==> #[trigger] r@[i]@ == list_view_of(
                    self.snap@,
                    precommits_name(block_hash@),
                )[i],
    {
        let idx = self.precommits(block_hash);
        let n = idx.len(&self.snap);
        let mut r: Vec<Vec<u8>> = Vec::new();
        let mut i: u64 = 0;
        while i < n
            invariant
                self.wf(),
                block_hash@.len() == 32,
                idx.wf(),
                idx.name@ == precommits_name(block_hash@),
                n == list_len_of(self.snap@, precommits_name(block_hash@)),
                0 <= i <= n,
                r@.len() == i,
                forall|j: int|
                    0 <= j < i ==> #[trigger] r@[j]@ == list_view_of(
                        self.snap@,
                        precommits_name(block_hash@),
                    )[j],
            decreases n - i,
        {
            match idx.get(&self.snap, i) {
                Some(v) => {
                    r.push(copy_bytes(v));
                },
                None => {
                    proof {
                        assert(list_wf(self.snap@, precommits_name(block_hash@)));
                        assert(false);
                    }
                },
            }
            i = i + 1;
        }
        r
    }
}

} // verus!
