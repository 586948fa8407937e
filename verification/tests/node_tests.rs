use ledger_sync::store::{Fork, MemoryDb, Snapshot};
use ledger_sync::blockchain::Blockchain;
use ledger_sync::state::{Connect, RoundState, Vote, VoteList};
use ledger_sync::messages::{
    RequestCommit, RequestMessage, RequestPeers, RequestPrecommits, RequestPrevotes,
    RequestPropose, RequestTransactions,
};
use ledger_sync::node::{Node, Outbound};
use ed25519_dalek::{Signer, SigningKey};

const ALIVE: u64 = 3_000_000_000;

fn keypair(seed: u8) -> (SigningKey, Vec<u8>) {
    let sk = SigningKey::from_bytes(&[seed; 32]);
    let pk = sk.verifying_key().to_bytes().to_vec();
    (sk, pk)
}

fn sign(sk: &SigningKey, raw: &[u8]) -> Vec<u8> {
    sk.sign(raw).to_bytes().to_vec()
}

fn h(b: u8) -> ledger_sync::merkle::Hash {
    ledger_sync::merkle::Hash::from_bytes(vec![b; 32])
}

/// A node with id 0 at the given height; validator 7 is registered with a key,
/// and the durable store is filled by the caller.
fn make_node(height: u64, snap: Snapshot, sk_seed: u8) -> (Node, SigningKey) {
    let (sk, pk) = keypair(sk_seed);
    let mut state = RoundState::new(0, height);
    state.set_validator(7, pk);
    (Node::new(state, snap), sk)
}

fn to_validator(o: &Outbound) -> (u32, Vec<u8>) {
    match o {
        Outbound::ToValidator { to, raw } => (*to, raw.clone()),
        Outbound::ToAddress { .. } => panic!("expected a validator-routed reply"),
    }
}

#[test]
fn freshness_boundary_accepts_exact_window() {
    let (mut node, sk) = make_node(5, MemoryDb::new().snapshot(), 7);
    node.state.add_transaction(&h(1), vec![0xAA]);
    let raw = vec![1, 2, 3];
    let sig = sign(&sk, &raw);
    let time: u64 = 1_000;
    let msg = RequestMessage::Transactions(RequestTransactions {
        txs: vec![h(1)],
        to: 0,
        from: 7,
        time,
        raw,
        signature: sig,
    });
    node.handle_request(msg, time + ALIVE);
    assert_eq!(node.outbox.len(), 1);
}

#[test]
fn freshness_boundary_drops_one_past_window() {
    let (mut node, sk) = make_node(5, MemoryDb::new().snapshot(), 7);
    node.state.add_transaction(&h(1), vec![0xAA]);
    let raw = vec![1, 2, 3];
    let sig = sign(&sk, &raw);
    let time: u64 = 1_000;
    let msg = RequestMessage::Transactions(RequestTransactions {
        txs: vec![h(1)],
        to: 0,
        from: 7,
        time,
        raw,
        signature: sig,
    });
    node.handle_request(msg, time + ALIVE + 1);
    assert_eq!(node.outbox.len(), 0);
}

#[test]
fn freshness_drops_negative_lifetime() {
    let (mut node, sk) = make_node(5, MemoryDb::new().snapshot(), 7);
    node.state.add_transaction(&h(1), vec![0xAA]);
    let raw = vec![1, 2, 3];
    let sig = sign(&sk, &raw);
    let time: u64 = 10_000;
    let msg = RequestMessage::Transactions(RequestTransactions {
        txs: vec![h(1)],
        to: 0,
        from: 7,
        time,
        raw,
        signature: sig,
    });
    node.handle_request(msg, time - 1);
    assert_eq!(node.outbox.len(), 0);
}

#[test]
fn auth_drops_wrong_key_signature() {
    // Validator 7 is registered with one key; the request is signed with another.
    let (mut node, _sk) = make_node(5, MemoryDb::new().snapshot(), 7);
    node.state.add_transaction(&h(1), vec![0xAA]);
    let (other_sk, _) = keypair(8);
    let raw = vec![1, 2, 3];
    let sig = sign(&other_sk, &raw);
    let msg = RequestMessage::Transactions(RequestTransactions {
        txs: vec![h(1)],
        to: 0,
        from: 7,
        time: 0,
        raw,
        signature: sig,
    });
    node.handle_request(msg, 0);
    assert_eq!(node.outbox.len(), 0);
}

#[test]
fn auth_drops_unknown_validator_id() {
    // A perfectly valid signature under an id that is not registered.
    let (mut node, _sk) = make_node(5, MemoryDb::new().snapshot(), 7);
    node.state.add_transaction(&h(1), vec![0xAA]);
    let (stranger_sk, _) = keypair(9);
    let raw = vec![1, 2, 3];
    let sig = sign(&stranger_sk, &raw);
    let msg = RequestMessage::Transactions(RequestTransactions {
        txs: vec![h(1)],
        to: 0,
        from: 9,
        time: 0,
        raw,
        signature: sig,
    });
    node.handle_request(msg, 0);
    assert_eq!(node.outbox.len(), 0);
}

#[test]
fn request_not_addressed_to_node_is_dropped() {
    let (mut node, sk) = make_node(5, MemoryDb::new().snapshot(), 7);
    node.state.add_transaction(&h(1), vec![0xAA]);
    let raw = vec![1, 2, 3];
    let sig = sign(&sk, &raw);
    let msg = RequestMessage::Transactions(RequestTransactions {
        txs: vec![h(1)],
        to: 3,
        from: 7,
        time: 0,
        raw,
        signature: sig,
    });
    node.handle_request(msg, 0);
    assert_eq!(node.outbox.len(), 0);
}

#[test]
fn transactions_from_state_and_durable_table() {
    // Height 5; h1 pends in round state, h2 sits in the durable table: both are
    // answered, exactly once each.
    let mut db = MemoryDb::new();
    let mut fork = Fork::new(db.snapshot());
    let names = Blockchain::new(Snapshot::empty());
    names.transactions().put(&mut fork, &vec![2; 32], vec![0xB2]);
    db.merge(fork.into_patch()).unwrap();

    let (mut node, sk) = make_node(5, db.snapshot(), 7);
    node.state.add_transaction(&h(1), vec![0xB1]);

    let raw = vec![9, 9];
    let sig = sign(&sk, &raw);
    let msg = RequestMessage::Transactions(RequestTransactions {
        txs: vec![h(1), h(2)],
        to: 0,
        from: 7,
        time: 50,
        raw,
        signature: sig,
    });
    node.handle_request(msg, 60);
    assert_eq!(node.outbox.len(), 2);
    let replies: Vec<(u32, Vec<u8>)> = node.outbox.iter().map(to_validator).collect();
    assert!(replies.contains(&(7, vec![0xB1])));
    assert!(replies.contains(&(7, vec![0xB2])));
}

#[test]
fn prevotes_with_none_recorded_sends_nothing() {
    // Height 5, round 2, propose P, zero known prevotes: no reply at all.
    let (mut node, sk) = make_node(5, MemoryDb::new().snapshot(), 7);
    let raw = vec![4];
    let sig = sign(&sk, &raw);
    let msg = RequestMessage::Prevotes(RequestPrevotes {
        height: 5,
        round: 2,
        propose_hash: h(3),
        to: 0,
        from: 7,
        time: 0,
        raw,
        signature: sig,
    });
    node.handle_request(msg, 0);
    assert_eq!(node.outbox.len(), 0);
}

#[test]
fn prevotes_of_current_height_are_answered() {
    let (mut node, sk) = make_node(5, MemoryDb::new().snapshot(), 7);
    node.state.set_prevotes(
        2,
        &h(3),
        VoteList {
            votes: vec![
                Vote { validator: 1, raw: vec![0xC1] },
                Vote { validator: 2, raw: vec![0xC2] },
            ],
        },
    );
    let raw = vec![4];
    let sig = sign(&sk, &raw);
    let msg = RequestMessage::Prevotes(RequestPrevotes {
        height: 5,
        round: 2,
        propose_hash: h(3),
        to: 0,
        from: 7,
        time: 0,
        raw,
        signature: sig,
    });
    node.handle_request(msg, 0);
    assert_eq!(node.outbox.len(), 2);
    assert_eq!(to_validator(&node.outbox[0]), (7, vec![0xC1]));
    assert_eq!(to_validator(&node.outbox[1]), (7, vec![0xC2]));
}

#[test]
fn prevotes_of_other_height_are_ignored() {
    let (mut node, sk) = make_node(5, MemoryDb::new().snapshot(), 7);
    node.state.set_prevotes(2, &h(3), VoteList { votes: vec![Vote { validator: 1, raw: vec![1] }] });
    let raw = vec![4];
    let sig = sign(&sk, &raw);
    let msg = RequestMessage::Prevotes(RequestPrevotes {
        height: 4,
        round: 2,
        propose_hash: h(3),
        to: 0,
        from: 7,
        time: 0,
        raw,
        signature: sig,
    });
    node.handle_request(msg, 0);
    assert_eq!(node.outbox.len(), 0);
}

#[test]
fn commit_resolves_height_and_returns_precommit_set() {
    // Node at height 10, commit requested for height 3: the block hash comes
    // from the heights list, the precommit set from the per-block list.
    let mut db = MemoryDb::new();
    let mut fork = Fork::new(db.snapshot());
    let names = Blockchain::new(Snapshot::empty());
    for height in 0u8..4 {
        names.heights().push(&mut fork, vec![0x10 + height; 32]);
    }
    let bh3 = vec![0x13; 32];
    names.precommits(&bh3).push(&mut fork, vec![0xD1]);
    names.precommits(&bh3).push(&mut fork, vec![0xD2]);
    names.precommits(&bh3).push(&mut fork, vec![0xD3]);
    db.merge(fork.into_patch()).unwrap();

    let (mut node, sk) = make_node(10, db.snapshot(), 7);
    let raw = vec![5];
    let sig = sign(&sk, &raw);
    let msg = RequestMessage::Commit(RequestCommit {
        height: 3,
        to: 0,
        from: 7,
        time: 0,
        raw,
        signature: sig,
    });
    node.handle_request(msg, 0);
    assert_eq!(node.outbox.len(), 3);
    assert_eq!(to_validator(&node.outbox[0]), (7, vec![0xD1]));
    assert_eq!(to_validator(&node.outbox[1]), (7, vec![0xD2]));
    assert_eq!(to_validator(&node.outbox[2]), (7, vec![0xD3]));
}

#[test]
fn commit_for_current_or_future_height_is_ignored() {
    let (mut node, sk) = make_node(10, MemoryDb::new().snapshot(), 7);
    let raw = vec![5];
    let sig = sign(&sk, &raw);
    let msg = RequestMessage::Commit(RequestCommit {
        height: 10,
        to: 0,
        from: 7,
        time: 0,
        raw,
        signature: sig,
    });
    node.handle_request(msg, 0);
    assert_eq!(node.outbox.len(), 0);
}

#[test]
fn commit_for_missing_height_sends_nothing() {
    // Height 3 is below the current height but the heights list has no entry:
    // no reply rather than a failing lookup.
    let (mut node, sk) = make_node(10, MemoryDb::new().snapshot(), 7);
    let raw = vec![5];
    let sig = sign(&sk, &raw);
    let msg = RequestMessage::Commit(RequestCommit {
        height: 3,
        to: 0,
        from: 7,
        time: 0,
        raw,
        signature: sig,
    });
    node.handle_request(msg, 0);
    assert_eq!(node.outbox.len(), 0);
}

#[test]
fn propose_of_current_height_from_round_state() {
    let (mut node, sk) = make_node(5, MemoryDb::new().snapshot(), 7);
    node.state.set_propose(&h(6), vec![0xE1]);
    let raw = vec![6];
    let sig = sign(&sk, &raw);
    let msg = RequestMessage::Propose(RequestPropose {
        height: 5,
        propose_hash: h(6),
        to: 0,
        from: 7,
        time: 0,
        raw,
        signature: sig,
    });
    node.handle_request(msg, 0);
    assert_eq!(node.outbox.len(), 1);
    assert_eq!(to_validator(&node.outbox[0]), (7, vec![0xE1]));
}

#[test]
fn propose_of_past_height_from_durable_table() {
    let mut db = MemoryDb::new();
    let mut fork = Fork::new(db.snapshot());
    let names = Blockchain::new(Snapshot::empty());
    names.proposes().put(&mut fork, &vec![6; 32], vec![0xE2]);
    db.merge(fork.into_patch()).unwrap();
    let (mut node, sk) = make_node(5, db.snapshot(), 7);
    let raw = vec![6];
    let sig = sign(&sk, &raw);
    let msg = RequestMessage::Propose(RequestPropose {
        height: 4,
        propose_hash: h(6),
        to: 0,
        from: 7,
        time: 0,
        raw,
        signature: sig,
    });
    node.handle_request(msg, 0);
    assert_eq!(node.outbox.len(), 1);
    assert_eq!(to_validator(&node.outbox[0]), (7, vec![0xE2]));
}

#[test]
fn propose_of_future_height_is_ignored() {
    let (mut node, sk) = make_node(5, MemoryDb::new().snapshot(), 7);
    node.state.set_propose(&h(6), vec![0xE1]);
    let raw = vec![6];
    let sig = sign(&sk, &raw);
    let msg = RequestMessage::Propose(RequestPropose {
        height: 6,
        propose_hash: h(6),
        to: 0,
        from: 7,
        time: 0,
        raw,
        signature: sig,
    });
    node.handle_request(msg, 0);
    assert_eq!(node.outbox.len(), 0);
}

#[test]
fn precommits_of_current_height_from_round_state() {
    let (mut node, sk) = make_node(5, MemoryDb::new().snapshot(), 7);
    node.state.set_precommits(
        1,
        &h(3),
        &h(4),
        VoteList { votes: vec![Vote { validator: 2, raw: vec![0xF1] }] },
    );
    let raw = vec![7];
    let sig = sign(&sk, &raw);
    let msg = RequestMessage::Precommits(RequestPrecommits {
        height: 5,
        round: 1,
        propose_hash: h(3),
        block_hash: h(4),
        to: 0,
        from: 7,
        time: 0,
        raw,
        signature: sig,
    });
    node.handle_request(msg, 0);
    assert_eq!(node.outbox.len(), 1);
    assert_eq!(to_validator(&node.outbox[0]), (7, vec![0xF1]));
}

#[test]
fn precommits_of_past_height_from_durable_list() {
    let mut db = MemoryDb::new();
    let mut fork = Fork::new(db.snapshot());
    let names = Blockchain::new(Snapshot::empty());
    names.precommits(&vec![4; 32]).push(&mut fork, vec![0xF2]);
    db.merge(fork.into_patch()).unwrap();
    let (mut node, sk) = make_node(5, db.snapshot(), 7);
    let raw = vec![7];
    let sig = sign(&sk, &raw);
    let msg = RequestMessage::Precommits(RequestPrecommits {
        height: 4,
        round: 1,
        propose_hash: h(3),
        block_hash: h(4),
        to: 0,
        from: 7,
        time: 0,
        raw,
        signature: sig,
    });
    node.handle_request(msg, 0);
    assert_eq!(node.outbox.len(), 1);
    assert_eq!(to_validator(&node.outbox[0]), (7, vec![0xF2]));
}

#[test]
fn peers_request_returns_every_known_peer() {
    let (mut node, sk) = make_node(5, MemoryDb::new().snapshot(), 7);
    node.state.add_peer(7, Connect { addr: vec![10, 0, 0, 7], raw: vec![0xA7] });
    node.state.add_peer(8, Connect { addr: vec![10, 0, 0, 8], raw: vec![0xA8] });
    let raw = vec![8];
    let sig = sign(&sk, &raw);
    let msg = RequestMessage::Peers(RequestPeers { to: 0, from: 7, time: 0, raw, signature: sig });
    node.handle_request(msg, 0);
    // Both connect messages, each to the requester's own network address.
    assert_eq!(node.outbox.len(), 2);
    let mut raws = Vec::new();
    for o in &node.outbox {
        match o {
            Outbound::ToAddress { addr, raw } => {
                assert_eq!(addr, &vec![10, 0, 0, 7]);
                raws.push(raw.clone());
            }
            Outbound::ToValidator { .. } => panic!("peer replies route by address"),
        }
    }
    assert!(raws.contains(&vec![0xA7]));
    assert!(raws.contains(&vec![0xA8]));
}
