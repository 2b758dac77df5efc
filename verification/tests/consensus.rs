use parsec::{Block, Parsec, Payload, PeerId};

fn network(ids: &[PeerId]) -> Vec<Parsec> {
    let group: Vec<PeerId> = ids.to_vec();
    ids.iter().map(|id| Parsec::new(*id, &group).unwrap()).collect()
}

fn exchange_messages(peers: &mut Vec<Parsec>, ids: &[PeerId], sender: usize, receiver: usize) {
    let request = peers[sender].create_gossip();
    let response = peers[receiver].handle_request(ids[sender], request).unwrap();
    peers[sender].handle_response(ids[receiver], response).unwrap();
}

// Every peer votes for each payload that it finds voted for in its graph.
fn second_votes(peers: &mut Vec<Parsec>) {
    for peer in peers.iter_mut() {
        let mut seen: Vec<u64> = Vec::new();
        for event in peer.graph.events.iter() {
            if let Payload::Vote(payload) = event.packed.payload {
                if !seen.contains(&payload) {
                    seen.push(payload);
                }
            }
        }
        for payload in seen {
            if !peer.have_voted_for(payload) {
                peer.vote_for(payload).unwrap();
            }
        }
    }
}

fn run(peers: &mut Vec<Parsec>, ids: &[PeerId], rounds: usize, relay: bool) -> Vec<Vec<Block>> {
    let n = ids.len();
    let mut polled: Vec<Vec<Block>> = vec![Vec::new(); n];
    for round in 0..rounds {
        for sender in 0..n {
            let receiver = (sender + 1 + round % (n - 1)) % n;
            exchange_messages(peers, ids, sender, receiver);
            if relay {
                second_votes(peers);
            }
        }
        for (i, peer) in peers.iter_mut().enumerate() {
            while let Some(block) = peer.poll().unwrap() {
                polled[i].push(block);
            }
        }
    }
    polled
}

#[test]
fn three_peer_consensus_on_one_payload() {
    let ids = [1u64, 2, 3];
    let mut peers = network(&ids);
    peers[0].vote_for(42).unwrap();
    let polled = run(&mut peers, &ids, 12, true);
    for blocks in polled.iter() {
        assert_eq!(blocks.len(), 1);
        assert_eq!(blocks[0].payload, 42);
    }
    assert_eq!(polled[0], polled[1]);
    assert_eq!(polled[1], polled[2]);
    assert_eq!(polled[0][0].voters, vec![1, 2, 3]);
}

#[test]
fn a_single_vote_is_no_block() {
    let ids = [1u64, 2, 3];
    let mut peers = network(&ids);
    peers[0].vote_for(42).unwrap();
    let polled = run(&mut peers, &ids, 12, false);
    for blocks in polled.iter() {
        assert!(blocks.is_empty());
    }
}

#[test]
fn concurrent_conflicting_votes() {
    let ids = [11u64, 22, 33, 44];
    let mut peers = network(&ids);
    peers[0].vote_for(100).unwrap();
    peers[1].vote_for(200).unwrap();
    let polled = run(&mut peers, &ids, 40, true);
    for blocks in polled.iter() {
        assert_eq!(blocks.len(), 2, "{polled:?}");
    }
    for blocks in polled.iter() {
        assert_eq!(blocks, &polled[0]);
    }
    let first = polled[0][0].payload;
    let second = polled[0][1].payload;
    assert!((first == 100 && second == 200) || (first == 200 && second == 100));
}

#[test]
fn super_majority_threshold() {
    let ids = [1u64, 2, 3, 4, 5, 6, 7];
    let mut peers = network(&ids);
    for i in 0..5 {
        peers[i].vote_for(9).unwrap();
    }
    for i in 5..7 {
        peers[i].vote_for(8).unwrap();
    }
    let polled = run(&mut peers, &ids, 30, false);
    for blocks in polled.iter() {
        assert_eq!(blocks.len(), 1, "{polled:?}");
        assert_eq!(blocks[0].payload, 9);
        assert_eq!(blocks[0].voters, vec![1, 2, 3, 4, 5]);
    }
}
