use vstd::prelude::*;
use crate::merkle::copy_bytes;
use crate::table::{keys_unique, table_view, table_get, table_set};
use crate::index::{be64, u64_to_be};

verus! {

/// One validator's vote message, kept as its raw bytes.
pub struct Vote {
    pub validator: u32,
    pub raw: Vec<u8>,
}

/// The mathematical content of a `Vote`.
pub struct VoteView {
    pub validator: u32,
    pub raw: Seq<u8>,
}

impl View for Vote {
    type V = VoteView;

    open spec fn view(&self) -> VoteView {
        VoteView { validator: self.validator, raw: self.raw@ }
    }
}

/// The votes known for one consensus slot, one per validator.
pub struct VoteList {
    pub votes: Vec<Vote>,
}

impl View for VoteList {
    type V = Seq<VoteView>;

    open spec fn view(&self) -> Seq<VoteView> {
        self.votes@.map_values(|v: Vote| v@)
    }
}

/// A peer's connect message: its network address and the raw message bytes.
pub struct Connect {
    pub addr: Vec<u8>,
    pub raw: Vec<u8>,
}

/// The mathematical content of a `Connect`.
pub struct ConnectView {
    pub addr: Seq<u8>,
    pub raw: Seq<u8>,
}

impl View for Connect {
    type V = ConnectView;

    open spec fn view(&self) -> ConnectView {
        ConnectView { addr: self.addr@, raw: self.raw@ }
    }
}

/// The table key of a validator id.
pub open spec fn validator_key(id: u32) -> Seq<u8> {
    be64(id as u64)
}

/// The table key of a prevote slot: round, then propose hash.
pub open spec fn prevote_key(round: u32, propose_hash: Seq<u8>) -> Seq<u8> {
    be64(round as u64) + propose_hash
}

/// The table key of a precommit slot: round, propose hash, block hash.
pub open spec fn precommit_key(round: u32, propose_hash: Seq<u8>, block_hash: Seq<u8>) -> Seq<u8> {
    be64(round as u64) + propose_hash + block_hash
}

/// Build the table key of a validator id.
pub fn validator_key_exec(id: u32) -> (r: Vec<u8>)
    ensures
        r@ == validator_key(id),
{
    u64_to_be(id as u64)
}

/// Build the table key of a prevote slot.
pub fn prevote_key_exec(round: u32, propose_hash: &crate::merkle::Hash) -> (r: Vec<u8>)
    ensures
        r@ == prevote_key(round, propose_hash@),
{
    let mut r = u64_to_be(round as u64);
    let mut hb = copy_bytes(&propose_hash.bytes);
    r.append(&mut hb);
    proof {
        assert(r@ =~= prevote_key(round, propose_hash@));
    }
    r
}

/// Build the table key of a precommit slot.
pub fn precommit_key_exec(round: u32, propose_hash: &crate::merkle::Hash, block_hash: &crate::merkle::Hash) -> (r: Vec<u8>)
    ensures
        r@ == precommit_key(round, propose_hash@, block_hash@),
{
    let mut r = u64_to_be(round as u64);
    let mut pb = copy_bytes(&propose_hash.bytes);
    let mut bb = copy_bytes(&block_hash.bytes);
    r.append(&mut pb);
    r.append(&mut bb);
    proof {
        assert(r@ =~= precommit_key(round, propose_hash@, block_hash@));
    }
    r
}

/// The transient, in-memory view of the current height and round: proposes,
/// buffered transactions, prevotes, precommits, the validator registry and the
/// known peers. Authoritative only for the current height; volatile.
pub struct RoundState {
    pub id: u32,
    pub height: u64,
    pub validators: Vec<(Vec<u8>, Vec<u8>)>,
    pub proposes: Vec<(Vec<u8>, Vec<u8>)>,
    pub transactions: Vec<(Vec<u8>, Vec<u8>)>,
    pub prevotes: Vec<(Vec<u8>, VoteList)>,
    pub precommits: Vec<(Vec<u8>, VoteList)>,
    pub peers: Vec<(Vec<u8>, Connect)>,
}

impl RoundState {
    /// Every table binds each key once.
    pub open spec fn wf(&self) -> bool {
        keys_unique(self.validators@) && keys_unique(self.proposes@) && keys_unique(
            self.transactions@,
        ) && keys_unique(self.prevotes@) && keys_unique(self.precommits@) && keys_unique(
            self.peers@,
        )
    }

    /// The validator registry: id key to public key bytes.
    pub open spec fn validators_view(&self) -> Map<Seq<u8>, Seq<u8>> {
        table_view(self.validators@)
    }

    /// Proposed blocks of the current height, keyed by propose hash.
    pub open spec fn proposes_view(&self) -> Map<Seq<u8>, Seq<u8>> {
        table_view(self.proposes@)
    }

    /// Buffered transactions, keyed by transaction hash.
    pub open spec fn transactions_view(&self) -> Map<Seq<u8>, Seq<u8>> {
        table_view(self.transactions@)
    }

    /// Prevotes, keyed by round and propose hash.
    pub open spec fn prevotes_view(&self) -> Map<Seq<u8>, Seq<VoteView>> {
        table_view(self.prevotes@)
    }

    /// Precommits, keyed by round, propose hash and block hash.
    pub open spec fn precommits_view(&self) -> Map<Seq<u8>, Seq<VoteView>> {
        table_view(self.precommits@)
    }

    /// Known peers, keyed by validator id.
    pub open spec fn peers_view(&self) -> Map<Seq<u8>, ConnectView> {
        table_view(self.peers@)
    }

    /// A fresh state for a node at a height, with nothing known yet.
    pub fn new(id: u32, height: u64) -> (r: RoundState)
        ensures
            r.wf(),
            r.id == id,
            r.height == height,
            r.validators@.len() == 0,
            r.proposes@.len() == 0,
            r.transactions@.len() == 0,
            r.prevotes@.len() == 0,
            r.precommits@.len() == 0,
            r.peers@.len() == 0,
    {
        RoundState {
            id,
            height,
            validators: Vec::new(),
            proposes: Vec::new(),
            transactions: Vec::new(),
            prevotes: Vec::new(),
            precommits: Vec::new(),
            peers: Vec::new(),
        }
    }

    /// This node's own validator id.
    pub fn id(&self) -> (r: u32)
        ensures
            r == self.id,
    {
        self.id
    }

    /// The current height.
    pub fn height(&self) -> (r: u64)
        ensures
            r == self.height,
    {
        self.height
    }

    /// The registered public key of a validator, if the id is known.
    pub fn public_key_of(&self, id: u32) -> (r: Option<&Vec<u8>>)
        requires
            self.wf(),
        ensures
            match r {
                Some(pk) => self.validators_view().contains_key(validator_key(id)) && pk@
                    == self.validators_view()[validator_key(id)],
                None => !self.validators_view().contains_key(validator_key(id)),
            },
    {
        let k = validator_key_exec(id);
        table_get(&self.validators, &k)
    }

    /// Register a validator's public key.
    pub fn set_validator(&mut self, id: u32, pk: Vec<u8>)
        requires
            old(self).wf(),
        ensures
            final(self).wf(),
            final(self).validators_view() == old(self).validators_view().insert(
                validator_key(id),
                pk@,
            ),
            final(self).id == old(self).id,
            final(self).height == old(self).height,
            final(self).proposes == old(self).proposes,
            final(self).transactions == old(self).transactions,
            final(self).prevotes == old(self).prevotes,
            final(self).precommits == old(self).precommits,
            final(self).peers == old(self).peers,
    {
        let k = validator_key_exec(id);
        table_set(&mut self.validators, k, pk);
    }

    /// The raw propose with a propose hash, if this round knows it.
    pub fn propose(&self, propose_hash: &crate::merkle::Hash) -> (r: Option<&Vec<u8>>)
        requires
            self.wf(),
        ensures
            match r {
                Some(p) => self.proposes_view().contains_key(propose_hash@) && p@
                    == self.proposes_view()[propose_hash@],
                None => !self.proposes_view().contains_key(propose_hash@),
            },
    {
        table_get(&self.proposes, &propose_hash.bytes)
    }

    /// Record a propose of the current height.
    pub fn set_propose(&mut self, propose_hash: &crate::merkle::Hash, raw: Vec<u8>)
        requires
            old(self).wf(),
        ensures
            final(self).wf(),
            final(self).proposes_view() == old(self).proposes_view().insert(propose_hash@, raw@),
            final(self).id == old(self).id,
            final(self).height == old(self).height,
            final(self).validators == old(self).validators,
            final(self).transactions == old(self).transactions,
            final(self).prevotes == old(self).prevotes,
            final(self).precommits == old(self).precommits,
            final(self).peers == old(self).peers,
    {
        let k = copy_bytes(&propose_hash.bytes);
        table_set(&mut self.proposes, k, raw);
    }

    /// The buffered transaction with a hash, if any.
    pub fn transaction(&self, tx_hash: &crate::merkle::Hash) -> (r: Option<&Vec<u8>>)
        requires
            self.wf(),
        ensures
            match r {
                Some(t) => self.transactions_view().contains_key(tx_hash@) && t@
                    == self.transactions_view()[tx_hash@],
                None => !self.transactions_view().contains_key(tx_hash@),
            },
    {
        table_get(&self.transactions, &tx_hash.bytes)
    }

    /// Buffer a transaction.
    pub fn add_transaction(&mut self, tx_hash: &crate::merkle::Hash, raw: Vec<u8>)
        requires
            old(self).wf(),
        ensures
            final(self).wf(),
            final(self).transactions_view() == old(self).transactions_view().insert(
                tx_hash@,
                raw@,
            ),
            final(self).id == old(self).id,
            final(self).height == old(self).height,
            final(self).validators == old(self).validators,
            final(self).proposes == old(self).proposes,
            final(self).prevotes == old(self).prevotes,
            final(self).precommits == old(self).precommits,
            final(self).peers == old(self).peers,
    {
        let k = copy_bytes(&tx_hash.bytes);
        table_set(&mut self.transactions, k, raw);
    }

    /// The prevotes known for a round and propose hash, if any were recorded.
    pub fn prevotes(&self, round: u32, propose_hash: &crate::merkle::Hash) -> (r: Option<&VoteList>)
        requires
            self.wf(),
        ensures
            match r {
                Some(v) => self.prevotes_view().contains_key(prevote_key(round, propose_hash@))
                    && v@ == self.prevotes_view()[prevote_key(round, propose_hash@)],
                None => !self.prevotes_view().contains_key(prevote_key(round, propose_hash@)),
            },
    {
        let k = prevote_key_exec(round, propose_hash);
        table_get(&self.prevotes, &k)
    }

    /// Record the prevotes of a round and propose hash.
    pub fn set_prevotes(&mut self, round: u32, propose_hash: &crate::merkle::Hash, votes: VoteList)
        requires
            old(self).wf(),
        ensures
            final(self).wf(),
            final(self).prevotes_view() == old(self).prevotes_view().insert(
                prevote_key(round, propose_hash@),
                votes@,
            ),
            final(self).id == old(self).id,
            final(self).height == old(self).height,
            final(self).validators == old(self).validators,
            final(self).proposes == old(self).proposes,
            final(self).transactions == old(self).transactions,
            final(self).precommits == old(self).precommits,
            final(self).peers == old(self).peers,
    {
        let k = prevote_key_exec(round, propose_hash);
        table_set(&mut self.prevotes, k, votes);
    }

    /// The precommits known for a round, propose hash and block hash, if any.
    pub fn precommits(&self, round: u32, propose_hash: &crate::merkle::Hash, block_hash: &crate::merkle::Hash) -> (r: Option<
        &VoteList,
    >)
        requires
            self.wf(),
        ensures
            match r {
                Some(v) => self.precommits_view().contains_key(
                    precommit_key(round, propose_hash@, block_hash@),
                ) && v@ == self.precommits_view()[precommit_key(round, propose_hash@, block_hash@)],
                None => !self.precommits_view().contains_key(
                    precommit_key(round, propose_hash@, block_hash@),
                ),
            },
    {
        let k = precommit_key_exec(round, propose_hash, block_hash);
        table_get(&self.precommits, &k)
    }

    /// Record the precommits of a round, propose hash and block hash.
    pub fn set_precommits(
        &mut self,
        round: u32,
        propose_hash: &crate::merkle::Hash,
        block_hash: &crate::merkle::Hash,
        votes: VoteList,
    )
        requires
            old(self).wf(),
        ensures
            final(self).wf(),
            final(self).precommits_view() == old(self).precommits_view().insert(
                precommit_key(round, propose_hash@, block_hash@),
                votes@,
            ),
            final(self).id == old(self).id,
            final(self).height == old(self).height,
            final(self).validators == old(self).validators,
            final(self).proposes == old(self).proposes,
            final(self).transactions == old(self).transactions,
            final(self).prevotes == old(self).prevotes,
            final(self).peers == old(self).peers,
    {
        let k = precommit_key_exec(round, propose_hash, block_hash);
        table_set(&mut self.precommits, k, votes);
    }

    /// Record a peer's connect message, keyed by its validator id.
    pub fn add_peer(&mut self, id: u32, connect: Connect)
        requires
            old(self).wf(),
        ensures
            final(self).wf(),
            final(self).peers_view() == old(self).peers_view().insert(validator_key(id), connect@),
            final(self).id == old(self).id,
            final(self).height == old(self).height,
            final(self).validators == old(self).validators,
            final(self).proposes == old(self).proposes,
            final(self).transactions == old(self).transactions,
            final(self).prevotes == old(self).prevotes,
            final(self).precommits == old(self).precommits,
    {
        let k = validator_key_exec(id);
        table_set(&mut self.peers, k, connect);
    }

    /// The connect message of a peer, if its validator id is known.
    pub fn peer(&self, id: u32) -> (r: Option<&Connect>)
        requires
            self.wf(),
        ensures
            match r {
                Some(c) => self.peers_view().contains_key(validator_key(id)) && c@
                    == self.peers_view()[validator_key(id)],
                None => !self.peers_view().contains_key(validator_key(id)),
            },
    {
        let k = validator_key_exec(id);
        table_get(&self.peers, &k)
    }
}

} // verus!
