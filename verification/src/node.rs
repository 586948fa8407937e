use vstd::prelude::*;
use crate::merkle::copy_bytes;
use crate::crypto::sig_valid;
use crate::store::Snapshot;
use crate::index::{map_index_view, list_elem_key, list_view_of};
use crate::blockchain::{Blockchain, heights_name, proposes_name, transactions_name,
    precommits_name};
use crate::state::{RoundState, VoteList, VoteView, validator_key, prevote_key, precommit_key};
use crate::messages::{RequestMessage, RequestPropose, RequestTransactions, RequestPrevotes,
    RequestPrecommits, RequestCommit, RequestPeers, msg_to, msg_from, msg_time, msg_raw, msg_sig,
    msg_wf};

verus! {

/// The freshness window of a request, in nanoseconds.
pub const REQUEST_ALIVE: u64 = 3_000_000_000;

/// One outbound unicast reply: raw message bytes routed by validator id or by
/// network address.
pub enum Outbound {
    ToValidator { to: u32, raw: Vec<u8> },
    ToAddress { addr: Vec<u8>, raw: Vec<u8> },
}

/// The mathematical content of an `Outbound`.
pub enum OutboundView {
    ToValidator { to: u32, raw: Seq<u8> },
    ToAddress { addr: Seq<u8>, raw: Seq<u8> },
}

impl View for Outbound {
    type V = OutboundView;

    open spec fn view(&self) -> OutboundView {
        match self {
            Outbound::ToValidator { to, raw } => OutboundView::ToValidator { to: *to, raw: raw@ },
            Outbound::ToAddress { addr, raw } => OutboundView::ToAddress {
                addr: addr@,
                raw: raw@,
            },
        }
    }
}

/// The contents of an outbox.
pub open spec fn outbox_view(s: Seq<Outbound>) -> Seq<OutboundView> {
    s.map_values(|o: Outbound| o@)
}

/// Whether the dispatcher admits a request: it is addressed to this node, its
/// lifetime `now - time` is neither negative nor over the freshness window, the
/// claimed sender's public key is registered, and the signature verifies under
/// that key. Anything else is silently dropped.
pub open spec fn accepts(state: RoundState, msg: RequestMessage, now: u64) -> bool {
    &&& msg_to(msg) == state.id
    &&& msg_time(msg) <= now
    &&& now - msg_time(msg) <= REQUEST_ALIVE
    &&& state.validators_view().contains_key(validator_key(msg_from(msg)))
    &&& sig_valid(msg_raw(msg), msg_sig(msg), state.validators_view()[validator_key(msg_from(msg))])
}

/// Replies of one vote list, one unicast per vote, in list order.
pub open spec fn votes_out(votes: Seq<VoteView>, to: u32) -> Seq<OutboundView> {
    votes.map_values(|v: VoteView| OutboundView::ToValidator { to, raw: v.raw })
}

/// Replies of one stored list of raw messages, one unicast per element.
pub open spec fn raws_out(raws: Seq<Seq<u8>>, to: u32) -> Seq<OutboundView> {
    raws.map_values(|r: Seq<u8>| OutboundView::ToValidator { to, raw: r })
}

/// Replies to a propose request: nothing for a future height; the round
/// state's propose at the current height; the durable table's otherwise.
pub open spec fn propose_responses(
    state: RoundState,
    m: Map<Seq<u8>, Seq<u8>>,
    msg: RequestPropose,
) -> Seq<OutboundView> {
    if msg.height > state.height {
        Seq::empty()
    } else if msg.height == state.height {
        if state.proposes_view().contains_key(msg.propose_hash@) {
            seq![OutboundView::ToValidator {
                to: msg.from,
                raw: state.proposes_view()[msg.propose_hash@],
            }]
        } else {
            Seq::empty()
        }
    } else {
        if map_index_view(m, proposes_name()).contains_key(msg.propose_hash@) {
            seq![OutboundView::ToValidator {
                to: msg.from,
                raw: map_index_view(m, proposes_name())[msg.propose_hash@],
            }]
        } else {
            Seq::empty()
        }
    }
}

/// Replies to a transactions request: for each requested hash, in order, the
/// buffered transaction if the round state holds it, else the durable one if
/// stored; missing hashes are skipped without a reply.
pub open spec fn txs_responses(
    state: RoundState,
    m: Map<Seq<u8>, Seq<u8>>,
    from: u32,
    txs: Seq<Seq<u8>>,
) -> Seq<OutboundView>
    decreases txs.len(),
{
    if txs.len() == 0 {
        Seq::empty()
    } else {
        let rest = txs_responses(state, m, from, txs.drop_last());
        let h = txs.last();
        if state.transactions_view().contains_key(h) {
            rest.push(
                OutboundView::ToValidator { to: from, raw: state.transactions_view()[h] },
            )
        } else if map_index_view(m, transactions_name()).contains_key(h) {
            rest.push(
                OutboundView::ToValidator {
                    to: from,
                    raw: map_index_view(m, transactions_name())[h],
                },
            )
        } else {
            rest
        }
    }
}

/// Replies to a prevotes request: serviced only at the current height, from
/// the round state alone — prevotes are never persisted. With nothing recorded,
/// no reply at all.
pub open spec fn prevotes_responses(state: RoundState, msg: RequestPrevotes) -> Seq<OutboundView> {
    if msg.height != state.height {
        Seq::empty()
    } else if state.prevotes_view().contains_key(prevote_key(msg.round, msg.propose_hash@)) {
        votes_out(state.prevotes_view()[prevote_key(msg.round, msg.propose_hash@)], msg.from)
    } else {
        Seq::empty()
    }
}

/// Replies to a precommits request: nothing for a future height; the round
/// state's votes at the current height; the durable per-block list otherwise.
pub open spec fn precommits_responses(
    state: RoundState,
    m: Map<Seq<u8>, Seq<u8>>,
    msg: RequestPrecommits,
) -> Seq<OutboundView> {
    if msg.height > state.height {
        Seq::empty()
    } else if msg.height == state.height {
        if state.precommits_view().contains_key(
            precommit_key(msg.round, msg.propose_hash@, msg.block_hash@),
        ) {
            votes_out(
                state.precommits_view()[precommit_key(
                    msg.round,
                    msg.propose_hash@,
                    msg.block_hash@,
                )],
                msg.from,
            )
        } else {
            Seq::empty()
        }
    } else {
        raws_out(list_view_of(m, precommits_name(msg.block_hash@)), msg.from)
    }
}

/// Replies to a commit request: serviced only for a height strictly below the
/// current one; the block hash is resolved from the durable heights list, and
/// the durable precommit set of that block is returned, one reply each. A
/// height the list does not hold, or a malformed hash, gets no reply.
pub open spec fn commit_responses(
    state: RoundState,
    m: Map<Seq<u8>, Seq<u8>>,
    msg: RequestCommit,
) -> Seq<OutboundView> {
    if msg.height >= state.height {
        Seq::empty()
    } else if m.contains_key(list_elem_key(heights_name(), msg.height)) && m[list_elem_key(
        heights_name(),
        msg.height,
    )].len() == 32 {
        raws_out(
            list_view_of(m, precommits_name(m[list_elem_key(heights_name(), msg.height)])),
            msg.from,
        )
    } else {
        Seq::empty()
    }
}

/// Replies to a peers request: every known peer connect message, each sent to
/// the requester's network address, in table order. A requester with no known
/// connect message gets no reply.
pub open spec fn peers_responses(state: RoundState, msg: RequestPeers) -> Seq<OutboundView> {
    if state.peers_view().contains_key(validator_key(msg.from)) {
        state.peers@.map_values(
            |row: (Vec<u8>, crate::state::Connect)| OutboundView::ToAddress {
                addr: state.peers_view()[validator_key(msg.from)].addr,
                raw: row.1@.raw,
            },
        )
    } else {
        Seq::empty()
    }
}

/// All replies a request earns once admitted, by its kind.
pub open spec fn responses(
    state: RoundState,
    m: Map<Seq<u8>, Seq<u8>>,
    msg: RequestMessage,
) -> Seq<OutboundView> {
    match msg {
        RequestMessage::Propose(r) => propose_responses(state, m, r),
        RequestMessage::Transactions(r) => txs_responses(
            state,
            m,
            r.from,
            r.txs@.map_values(|h: crate::merkle::Hash| h@),
        ),
        RequestMessage::Prevotes(r) => prevotes_responses(state, r),
        RequestMessage::Precommits(r) => precommits_responses(state, m, r),
        RequestMessage::Commit(r) => commit_responses(state, m, r),
        RequestMessage::Peers(r) => peers_responses(state, r),
    }
}

/// Appending one reply extends the outbox contents by its view.
proof fn lemma_outbox_push(s: Seq<Outbound>, o: Outbound)
    ensures
        outbox_view(s.push(o)) == outbox_view(s).push(o@),
{
    assert(outbox_view(s.push(o)) =~= outbox_view(s).push(o@));
}

/// Copies of the raw bytes of each vote, in order.
fn vote_raws(v: &VoteList) -> (r: Vec<Vec<u8>>)
    ensures
        r@.len() == v@.len(),
        forall|i: int| 0 <= i < r@.len() ==> #[trigger] r@[i]@ == v@[i].raw,
{
    let mut r: Vec<Vec<u8>> = Vec::new();
    let n = v.votes.len();
    let mut i: usize = 0;
    while i < n
        invariant
            n == v.votes@.len(),
            v@.len() == n,
            0 <= i <= n,
            r@.len() == i,
            forall|j: int| 0 <= j < i ==> #[trigger] r@[j]@ == v@[j].raw,
        decreases n - i,
    {
        r.push(copy_bytes(&v.votes[i].raw));
        i = i + 1;
    }
    r
}

/// A validator node's synchronization core: its transient round state, the
/// durable blockchain facade, and the unicast replies it has handed to the
/// transport. Handling a request only ever appends to the outbox.
pub struct Node {
    pub state: RoundState,
    pub blockchain: Blockchain,
    pub outbox: Vec<Outbound>,
}

impl Node {
    /// Both state tiers are internally consistent.
    pub open spec fn wf(&self) -> bool {
        self.state.wf() && self.blockchain.wf()
    }

    /// A node over its round state and a snapshot of the durable store, with an
    /// empty outbox.
    pub fn new(state: RoundState, snap: Snapshot) -> (r: Node)
        ensures
            r.state == state,
            r.blockchain.snap == snap,
            r.outbox@.len() == 0,
    {
        Node { state, blockchain: Blockchain::new(snap), outbox: Vec::new() }
    }

    /// Hand one reply to the transport, routed by validator id.
    fn send_to_validator(&mut self, to: u32, raw: Vec<u8>)
        ensures
            final(self).state == old(self).state,
            final(self).blockchain == old(self).blockchain,
            outbox_view(final(self).outbox@) == outbox_view(old(self).outbox@).push(
                OutboundView::ToValidator { to, raw: raw@ },
            ),
    {
        let ghost pre = self.outbox@;
        let o = Outbound::ToValidator { to, raw };
        proof {
            lemma_outbox_push(pre, o);
        }
        self.outbox.push(o);
    }

    /// Hand one reply to the transport, routed by network address.
    fn send_to_addr(&mut self, addr: Vec<u8>, raw: Vec<u8>)
        ensures
            final(self).state == old(self).state,
            final(self).blockchain == old(self).blockchain,
            outbox_view(final(self).outbox@) == outbox_view(old(self).outbox@).push(
                OutboundView::ToAddress { addr: addr@, raw: raw@ },
            ),
    {
        let ghost pre = self.outbox@;
        let o = Outbound::ToAddress { addr, raw };
        proof {
            lemma_outbox_push(pre, o);
        }
        self.outbox.push(o);
    }

    /// Answer a propose request: ignore a future height; at the current height
    /// consult the round state, below it the durable proposes table; reply with
    /// the raw propose when found, else not at all.
    pub fn handle_request_propose(&mut self, msg: RequestPropose)
        requires
            old(self).wf(),
        ensures
            final(self).wf(),
            final(self).state == old(self).state,
            final(self).blockchain == old(self).blockchain,
            outbox_view(final(self).outbox@) == outbox_view(old(self).outbox@)
                + propose_responses(old(self).state, old(self).blockchain.snap@, msg),
    {
        let ghost expect = propose_responses(self.state, self.blockchain.snap@, msg);
        if msg.height > self.state.height() {
            proof {
                assert(outbox_view(self.outbox@) =~= outbox_view(self.outbox@) + expect);
            }
            return ;
        }
        let found: Option<Vec<u8>> = if msg.height == self.state.height() {
            match self.state.propose(&msg.propose_hash) {
                Some(p) => Some(copy_bytes(p)),
                None => None,
            }
        } else {
            match self.blockchain.proposes().get(&self.blockchain.snap, &msg.propose_hash.bytes) {
                Some(p) => Some(copy_bytes(p)),
                None => None,
            }
        };
        match found {
            Some(p) => {
                self.send_to_validator(msg.from, p);
                proof {
                    assert(outbox_view(final(self).outbox@) =~= outbox_view(old(self).outbox@)
                        + expect);
                }
            },
            None => {
                proof {
                    assert(outbox_view(self.outbox@) =~= outbox_view(self.outbox@) + expect);
                }
            },
        }
    }

    /// Answer a transactions request: each requested hash found in the round
    /// state's buffer or, failing that, in the durable table earns one reply
    /// with the raw transaction; missing hashes are skipped silently.
    pub fn handle_request_txs(&mut self, msg: RequestTransactions)
        requires
            old(self).wf(),
        ensures
            final(self).wf(),
            final(self).state == old(self).state,
            final(self).blockchain == old(self).blockchain,
            outbox_view(final(self).outbox@) == outbox_view(old(self).outbox@) + txs_responses(
                old(self).state,
                old(self).blockchain.snap@,
                msg.from,
                msg.txs@.map_values(|h: crate::merkle::Hash| h@),
            ),
    {
        let ghost hs = msg.txs@.map_values(|h: crate::merkle::Hash| h@);
        let ghost base = outbox_view(self.outbox@);
        let n = msg.txs.len();
        let mut i: usize = 0;
        while i < n
            invariant
                self.wf(),
                self.state == old(self).state,
                self.blockchain == old(self).blockchain,
                n == msg.txs@.len(),
                hs == msg.txs@.map_values(|h: crate::merkle::Hash| h@),
                base == outbox_view(old(self).outbox@),
                0 <= i <= n,
                outbox_view(self.outbox@) == base + txs_responses(
                    self.state,
                    self.blockchain.snap@,
                    msg.from,
                    hs.subrange(0, i as int),
                ),
            decreases n - i,
        {
            let ghost pre = outbox_view(self.outbox@);
            let h = &msg.txs[i];
            let found: Option<Vec<u8>> = match self.state.transaction(h) {
                Some(t) => Some(copy_bytes(t)),
                None => {
                    match self.blockchain.transactions().get(&self.blockchain.snap, &h.bytes) {
                        Some(t) => Some(copy_bytes(t)),
                        None => None,
                    }
                },
            };
            match found {
                Some(t) => {
                    self.send_to_validator(msg.from, t);
                },
                None => {},
            }
            proof {
                assert(hs.subrange(0, i + 1).drop_last() =~= hs.subrange(0, i as int));
                assert(hs.subrange(0, i + 1).last() == hs[i as int]);
                assert(hs[i as int] == msg.txs@[i as int]@);
                assert(outbox_view(self.outbox@) =~= base + txs_responses(
                    self.state,
                    self.blockchain.snap@,
                    msg.from,
                    hs.subrange(0, i + 1),
                ));
            }
            i = i + 1;
        }
        proof {
            assert(hs.subrange(0, n as int) =~= hs);
        }
    }

    /// Send one reply per vote of a list, in order.
    fn send_votes(&mut self, to: u32, votes: Vec<Vec<u8>>)
        ensures
            final(self).state == old(self).state,
            final(self).blockchain == old(self).blockchain,
            outbox_view(final(self).outbox@) == outbox_view(old(self).outbox@) + raws_out(
                votes@.map_values(|r: Vec<u8>| r@),
                to,
            ),
    {
        let ghost raws = votes@.map_values(|r: Vec<u8>| r@);
        let ghost base = outbox_view(self.outbox@);
        let n = votes.len();
        let mut i: usize = 0;
        while i < n
            invariant
                self.state == old(self).state,
                self.blockchain == old(self).blockchain,
                n == votes@.len(),
                raws == votes@.map_values(|r: Vec<u8>| r@),
                base == outbox_view(old(self).outbox@),
                0 <= i <= n,
                outbox_view(self.outbox@) == base + raws_out(raws.subrange(0, i as int), to),
            decreases n - i,
        {
            let r = copy_bytes(&votes[i]);
            self.send_to_validator(to, r);
            proof {
                assert(outbox_view(self.outbox@) =~= base + raws_out(
                    raws.subrange(0, i + 1),
                    to,
                ));
            }
            i = i + 1;
        }
        proof {
            assert(raws.subrange(0, n as int) =~= raws);
        }
    }

    /// Answer a prevotes request: only the current height is serviced, from the
    /// round state alone; one reply per known prevote, and none at all when
    /// nothing is recorded.
    pub fn handle_request_prevotes(&mut self, msg: RequestPrevotes)
        requires
            old(self).wf(),
        ensures
            final(self).wf(),
            final(self).state == old(self).state,
            final(self).blockchain == old(self).blockchain,
            outbox_view(final(self).outbox@) == outbox_view(old(self).outbox@)
                + prevotes_responses(old(self).state, msg),
    {
        let ghost expect = prevotes_responses(self.state, msg);
        if msg.height != self.state.height() {
            proof {
                assert(outbox_view(self.outbox@) =~= outbox_view(self.outbox@) + expect);
            }
            return ;
        }
        let raws: Vec<Vec<u8>> = match self.state.prevotes(msg.round, &msg.propose_hash) {
            Some(v) => vote_raws(v),
            None => Vec::new(),
        };
        proof {
            assert(raws_out(raws@.map_values(|r: Vec<u8>| r@), msg.from) =~= expect);
        }
        self.send_votes(msg.from, raws);
    }

    /// Answer a precommits request: ignore a future height; at the current
    /// height consult the round state, below it the durable precommit list of
    /// the block hash; one reply per precommit.
    pub fn handle_request_precommits(&mut self, msg: RequestPrecommits)
        requires
            old(self).wf(),
            msg_wf(RequestMessage::Precommits(msg)),
        ensures
            final(self).wf(),
            final(self).state == old(self).state,
            final(self).blockchain == old(self).blockchain,
            outbox_view(final(self).outbox@) == outbox_view(old(self).outbox@)
                + precommits_responses(old(self).state, old(self).blockchain.snap@, msg),
    {
        let ghost expect = precommits_responses(self.state, self.blockchain.snap@, msg);
        if msg.height > self.state.height() {
            proof {
                assert(outbox_view(self.outbox@) =~= outbox_view(self.outbox@) + expect);
            }
            return ;
        }
        let raws: Vec<Vec<u8>> = if msg.height == self.state.height() {
            match self.state.precommits(msg.round, &msg.propose_hash, &msg.block_hash) {
                Some(v) => vote_raws(v),
                None => Vec::new(),
            }
        } else {
            self.blockchain.precommits_list(&msg.block_hash.bytes)
        };
        proof {
            assert(raws_out(raws@.map_values(|r: Vec<u8>| r@), msg.from) =~= expect);
        }
        self.send_votes(msg.from, raws);
    }

    /// Answer a commit request: only a height strictly below the current one is
    /// serviced; the block hash comes from the durable heights list and its
    /// durable precommit set is returned, one reply per precommit. A height the
    /// list does not hold gets no reply rather than a failing lookup.
    pub fn handle_request_commit(&mut self, msg: RequestCommit)
        requires
            old(self).wf(),
        ensures
            final(self).wf(),
            final(self).state == old(self).state,
            final(self).blockchain == old(self).blockchain,
            outbox_view(final(self).outbox@) == outbox_view(old(self).outbox@) + commit_responses(
                old(self).state,
                old(self).blockchain.snap@,
                msg,
            ),
    {
        let ghost expect = commit_responses(self.state, self.blockchain.snap@, msg);
        if msg.height >= self.state.height() {
            proof {
                assert(outbox_view(self.outbox@) =~= outbox_view(self.outbox@) + expect);
            }
            return ;
        }
        let block_hash: Option<Vec<u8>> = match self.blockchain.height_hash(msg.height) {
            Some(v) => {
                if v.len() == 32 {
                    Some(copy_bytes(v))
                } else {
                    None
                }
            },
            None => None,
        };
        match block_hash {
            Some(bh) => {
                let raws = self.blockchain.precommits_list(&bh);
                proof {
                    assert(raws_out(raws@.map_values(|r: Vec<u8>| r@), msg.from) =~= expect);
                }
                self.send_votes(msg.from, raws);
            },
            None => {
                proof {
                    assert(outbox_view(self.outbox@) =~= outbox_view(self.outbox@) + expect);
                }
            },
        }
    }

    /// Answer a peers request: every known peer connect message, each sent to
    /// the requester's network address; a requester with no known address gets
    /// nothing.
    pub fn handle_request_peers(&mut self, msg: RequestPeers)
        requires
            old(self).wf(),
        ensures
            final(self).wf(),
            final(self).state == old(self).state,
            final(self).blockchain == old(self).blockchain,
            outbox_view(final(self).outbox@) == outbox_view(old(self).outbox@) + peers_responses(
                old(self).state,
                msg,
            ),
    {
        let ghost expect = peers_responses(self.state, msg);
        let addr: Option<Vec<u8>> = match self.state.peer(msg.from) {
            Some(c) => Some(copy_bytes(&c.addr)),
            None => None,
        };
        match addr {
            Some(addr) => {
                let ghost base = outbox_view(self.outbox@);
                let n = self.state.peers.len();
                let mut raws: Vec<Vec<u8>> = Vec::new();
                let mut i: usize = 0;
                while i < n
                    invariant
                        self.wf(),
                        n == self.state.peers@.len(),
                        0 <= i <= n,
                        raws@.len() == i,
                        forall|j: int|
                            0 <= j < i ==> #[trigger] raws@[j]@ == self.state.peers@[j].1@.raw,
                    decreases n - i,
                {
                    let row = &self.state.peers[i];
                    raws.push(copy_bytes(&row.1.raw));
                    i = i + 1;
                }
                let m = raws.len();
                let mut j: usize = 0;
                while j < m
                    invariant
                        self.state == old(self).state,
                        self.blockchain == old(self).blockchain,
                        m == raws@.len(),
                        m == self.state.peers@.len(),
                        addr@ == expect_addr_of(old(self).state, msg),
                        expect == peers_responses(old(self).state, msg),
                        peers_responses(old(self).state, msg).len() == m,
                        forall|t: int|
                            0 <= t < m ==> #[trigger] raws@[t]@ == self.state.peers@[t].1@.raw,
                        forall|t: int|
                            0 <= t < m ==> #[trigger] expect[t] == (OutboundView::ToAddress {
                                addr: addr@,
                                raw: raws@[t]@,
                            }),
                        base == outbox_view(old(self).outbox@),
                        0 <= j <= m,
                        outbox_view(self.outbox@) == base + expect.subrange(0, j as int),
                    decreases m - j,
                {
                    let a = copy_bytes(&addr);
                    let r = copy_bytes(&raws[j]);
                    self.send_to_addr(a, r);
                    proof {
                        assert(outbox_view(self.outbox@) =~= base + expect.subrange(0, j + 1));
                    }
                    j = j + 1;
                }
                proof {
                    assert(expect.subrange(0, m as int) =~= expect);
                }
            },
            None => {
                proof {
                    assert(outbox_view(self.outbox@) =~= outbox_view(self.outbox@) + expect);
                }
            },
        }
    }

    /// Validate and route one inbound request: a request not addressed to this
    /// node, outside the freshness window, from an unknown validator id, or
    /// with a bad signature is silently dropped; an admitted request earns
    /// exactly the replies of its kind. Round state and blockchain are read,
    /// never written.
    pub fn handle_request(&mut self, msg: RequestMessage, now: u64)
        requires
            old(self).wf(),
            msg_wf(msg),
        ensures
            final(self).wf(),
            final(self).state == old(self).state,
            final(self).blockchain == old(self).blockchain,
            outbox_view(final(self).outbox@) == outbox_view(old(self).outbox@) + (if accepts(
                old(self).state,
                msg,
                now,
            ) {
                responses(old(self).state, old(self).blockchain.snap@, msg)
            } else {
                Seq::empty()
            }),
    {
        proof {
            // a dropped request leaves the outbox as it was
            assert(outbox_view(self.outbox@) + Seq::<OutboundView>::empty() =~= outbox_view(
                self.outbox@,
            ));
        }
        if msg.to() != self.state.id() {
            return ;
        }
        let t = msg.time();
        if t > now {
            return ;
        }
        let lifetime = now - t;
        if lifetime > REQUEST_ALIVE {
            return ;
        }
        let public_key: Vec<u8> = match self.state.public_key_of(msg.from()) {
            Some(pk) => copy_bytes(pk),
            None => {
                return ;
            },
        };
        if !msg.verify(&public_key) {
            return ;
        }
        match msg {
            RequestMessage::Propose(m) => self.handle_request_propose(m),
            RequestMessage::Transactions(m) => self.handle_request_txs(m),
            RequestMessage::Prevotes(m) => self.handle_request_prevotes(m),
            RequestMessage::Precommits(m) => self.handle_request_precommits(m),
            RequestMessage::Commit(m) => self.handle_request_commit(m),
            RequestMessage::Peers(m) => self.handle_request_peers(m),
        }
    }
}


/// Law: freshness boundary — with every other admission condition met, a
/// request whose lifetime `now - time` is exactly the window is accepted, one
/// nanosecond more is dropped, and a send time in the future (a negative
/// lifetime) is dropped.
pub proof fn lemma_freshness_boundary(state: RoundState, msg: RequestMessage, now: u64)
    requires
        msg_to(msg) == state.id,
        state.validators_view().contains_key(validator_key(msg_from(msg))),
        sig_valid(
            msg_raw(msg),
            msg_sig(msg),
            state.validators_view()[validator_key(msg_from(msg))],
        ),
    ensures
        msg_time(msg) <= now && now - msg_time(msg) == REQUEST_ALIVE ==> accepts(state, msg, now),
        now - msg_time(msg) == REQUEST_ALIVE + 1 ==> !accepts(state, msg, now),
        msg_time(msg) > now ==> !accepts(state, msg, now),
{
}

/// Law: authentication — a request from a validator id with no registered
/// public key is dropped, and so is one whose signature does not verify under
/// the registered key; no reply of any kind is sent for either.
pub proof fn lemma_authentication(state: RoundState, msg: RequestMessage, now: u64)
    ensures
        !state.validators_view().contains_key(validator_key(msg_from(msg))) ==> !accepts(
            state,
            msg,
            now,
        ),
        state.validators_view().contains_key(validator_key(msg_from(msg))) && !sig_valid(
            msg_raw(msg),
            msg_sig(msg),
            state.validators_view()[validator_key(msg_from(msg))],
        ) ==> !accepts(state, msg, now),
{
}

/// The requester's address a peers request is answered at.
pub open spec fn expect_addr_of(state: RoundState, msg: RequestPeers) -> Seq<u8> {
    state.peers_view()[validator_key(msg.from)].addr
}

} // verus!
