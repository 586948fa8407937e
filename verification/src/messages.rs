use vstd::prelude::*;
use crate::merkle::hash_wf;
use crate::crypto::{sig_valid, signature_valid};

verus! {

/// Ask a peer for the propose with a hash at a height.
pub struct RequestPropose {
    pub height: u64,
    pub propose_hash: crate::merkle::Hash,
    pub to: u32,
    pub from: u32,
    pub time: u64,
    pub raw: Vec<u8>,
    pub signature: Vec<u8>,
}

/// Ask a peer for the transactions with the listed hashes.
pub struct RequestTransactions {
    pub txs: Vec<crate::merkle::Hash>,
    pub to: u32,
    pub from: u32,
    pub time: u64,
    pub raw: Vec<u8>,
    pub signature: Vec<u8>,
}

/// Ask a peer for the prevotes of a round and propose hash at a height.
pub struct RequestPrevotes {
    pub height: u64,
    pub round: u32,
    pub propose_hash: crate::merkle::Hash,
    pub to: u32,
    pub from: u32,
    pub time: u64,
    pub raw: Vec<u8>,
    pub signature: Vec<u8>,
}

/// Ask a peer for the precommits of a round, propose hash and block hash.
pub struct RequestPrecommits {
    pub height: u64,
    pub round: u32,
    pub propose_hash: crate::merkle::Hash,
    pub block_hash: crate::merkle::Hash,
    pub to: u32,
    pub from: u32,
    pub time: u64,
    pub raw: Vec<u8>,
    pub signature: Vec<u8>,
}

/// Ask a peer for the committed precommit set of a past height.
pub struct RequestCommit {
    pub height: u64,
    pub to: u32,
    pub from: u32,
    pub time: u64,
    pub raw: Vec<u8>,
    pub signature: Vec<u8>,
}

/// Ask a peer for every peer it knows.
pub struct RequestPeers {
    pub to: u32,
    pub from: u32,
    pub time: u64,
    pub raw: Vec<u8>,
    pub signature: Vec<u8>,
}

/// An inbound catch-up request: one case per message kind, routed by
/// exhaustive matching.
pub enum RequestMessage {
    Propose(RequestPropose),
    Transactions(RequestTransactions),
    Prevotes(RequestPrevotes),
    Precommits(RequestPrecommits),
    Commit(RequestCommit),
    Peers(RequestPeers),
}

/// The addressee of a request.
pub open spec fn msg_to(msg: RequestMessage) -> u32 {
    match msg {
        RequestMessage::Propose(m) => m.to,
        RequestMessage::Transactions(m) => m.to,
        RequestMessage::Prevotes(m) => m.to,
        RequestMessage::Precommits(m) => m.to,
        RequestMessage::Commit(m) => m.to,
        RequestMessage::Peers(m) => m.to,
    }
}

/// The claimed sender of a request.
pub open spec fn msg_from(msg: RequestMessage) -> u32 {
    match msg {
        RequestMessage::Propose(m) => m.from,
        RequestMessage::Transactions(m) => m.from,
        RequestMessage::Prevotes(m) => m.from,
        RequestMessage::Precommits(m) => m.from,
        RequestMessage::Commit(m) => m.from,
        RequestMessage::Peers(m) => m.from,
    }
}

/// The send time of a request, in nanoseconds.
pub open spec fn msg_time(msg: RequestMessage) -> u64 {
    match msg {
        RequestMessage::Propose(m) => m.time,
        RequestMessage::Transactions(m) => m.time,
        RequestMessage::Prevotes(m) => m.time,
        RequestMessage::Precommits(m) => m.time,
        RequestMessage::Commit(m) => m.time,
        RequestMessage::Peers(m) => m.time,
    }
}

/// The signed bytes of a request.
pub open spec fn msg_raw(msg: RequestMessage) -> Seq<u8> {
    match msg {
        RequestMessage::Propose(m) => m.raw@,
        RequestMessage::Transactions(m) => m.raw@,
        RequestMessage::Prevotes(m) => m.raw@,
        RequestMessage::Precommits(m) => m.raw@,
        RequestMessage::Commit(m) => m.raw@,
        RequestMessage::Peers(m) => m.raw@,
    }
}

/// The signature carried by a request.
pub open spec fn msg_sig(msg: RequestMessage) -> Seq<u8> {
    match msg {
        RequestMessage::Propose(m) => m.signature@,
        RequestMessage::Transactions(m) => m.signature@,
        RequestMessage::Prevotes(m) => m.signature@,
        RequestMessage::Precommits(m) => m.signature@,
        RequestMessage::Commit(m) => m.signature@,
        RequestMessage::Peers(m) => m.signature@,
    }
}

/// Every digest a request carries is well-formed.
pub open spec fn msg_wf(msg: RequestMessage) -> bool {
    match msg {
        RequestMessage::Propose(m) => hash_wf(m.propose_hash),
        RequestMessage::Transactions(m) => forall|i: int|
            0 <= i < m.txs@.len() ==> hash_wf(#[trigger] m.txs@[i]),
        RequestMessage::Prevotes(m) => hash_wf(m.propose_hash),
        RequestMessage::Precommits(m) => hash_wf(m.propose_hash) && hash_wf(m.block_hash),
        RequestMessage::Commit(m) => true,
        RequestMessage::Peers(m) => true,
    }
}

impl RequestMessage {
    /// The addressee of the request.
    pub fn to(&self) -> (r: u32)
        ensures
            r == msg_to(*self),
    {
        match self {
            RequestMessage::Propose(m) => m.to,
            RequestMessage::Transactions(m) => m.to,
            RequestMessage::Prevotes(m) => m.to,
            RequestMessage::Precommits(m) => m.to,
            RequestMessage::Commit(m) => m.to,
            RequestMessage::Peers(m) => m.to,
        }
    }

    /// The claimed sender of the request.
    pub fn from(&self) -> (r: u32)
        ensures
            r == msg_from(*self),
    {
        match self {
            RequestMessage::Propose(m) => m.from,
            RequestMessage::Transactions(m) => m.from,
            RequestMessage::Prevotes(m) => m.from,
            RequestMessage::Precommits(m) => m.from,
            RequestMessage::Commit(m) => m.from,
            RequestMessage::Peers(m) => m.from,
        }
    }

    /// The send time of the request.
    pub fn time(&self) -> (r: u64)
        ensures
            r == msg_time(*self),
    {
        match self {
            RequestMessage::Propose(m) => m.time,
            RequestMessage::Transactions(m) => m.time,
            RequestMessage::Prevotes(m) => m.time,
            RequestMessage::Precommits(m) => m.time,
            RequestMessage::Commit(m) => m.time,
            RequestMessage::Peers(m) => m.time,
        }
    }

    /// Check the request's signature over its signed bytes under a public key.
    pub fn verify(&self, public_key: &Vec<u8>) -> (r: bool)
        ensures
            r == sig_valid(msg_raw(*self), msg_sig(*self), public_key@),
    {
        match self {
            RequestMessage::Propose(m) => signature_valid(&m.raw, &m.signature, public_key),
            RequestMessage::Transactions(m) => signature_valid(&m.raw, &m.signature, public_key),
            RequestMessage::Prevotes(m) => signature_valid(&m.raw, &m.signature, public_key),
            RequestMessage::Precommits(m) => signature_valid(&m.raw, &m.signature, public_key),
            RequestMessage::Commit(m) => signature_valid(&m.raw, &m.signature, public_key),
            RequestMessage::Peers(m) => signature_valid(&m.raw, &m.signature, public_key),
        }
    }
}

} // verus!
