use parsec::{Error, Event, Graph, PackedEvent, Parsec, Payload, PeerId, Request, Response};

fn network(ids: &[PeerId]) -> Vec<Parsec> {
    let group: Vec<PeerId> = ids.to_vec();
    ids.iter().map(|id| Parsec::new(*id, &group).unwrap()).collect()
}

fn packed(parsec: &Parsec) -> Vec<PackedEvent> {
    parsec.graph.events.iter().map(|event| event.packed).collect()
}

#[test]
fn a_new_driver_holds_its_own_first_event() {
    let parsec = Parsec::new(2, &vec![1, 2, 3, 2]).unwrap();
    assert_eq!(parsec.peer_manager.all_ids(), vec![1, 2, 3]);
    assert_eq!(parsec.peer_manager.our_id(), 2);
    assert_eq!(packed(&parsec), vec![PackedEvent::new_initial(2)]);
    let first = &parsec.graph.events[0];
    assert_eq!(first.index, 0);
    assert_eq!(first.topological_index(), 0);
    assert_eq!(first.hash(), PackedEvent::new_initial(2).hash());
    assert_eq!(first.last_ancestors, vec![None, Some(0), None]);
    assert_eq!(first.first_descendants, vec![None, Some(0), None]);
    assert!(first.valid_blocks_carried.is_empty());
    assert_eq!(first.observations, vec![false, false, false]);
    assert_eq!(parsec.meta_votes, vec![None]);
    assert_eq!(parsec.responsiveness_threshold, 2);
    assert!(parsec.consensused_blocks.is_empty());
}

#[test]
fn the_threshold_counts_the_distinct_genesis_peers() {
    assert_eq!(Parsec::new(1, &vec![1, 2, 3, 4, 5, 6, 7, 8]).unwrap().responsiveness_threshold, 3);
    assert_eq!(Parsec::new(9, &vec![1, 2, 3, 4, 5, 6, 7, 8]).unwrap().responsiveness_threshold, 3);
    assert_eq!(Parsec::new(1, &vec![1, 1, 1]).unwrap().responsiveness_threshold, 0);
    assert_eq!(Parsec::new(1, &vec![]).unwrap().responsiveness_threshold, 0);
    assert_eq!(Parsec::new(1, &vec![2, 1, 2, 3, 3]).unwrap().responsiveness_threshold, 2);
}

#[test]
fn duplicate_event_insertion() {
    let ids = [1u64, 2, 3];
    let mut peers = network(&ids);
    let first = PackedEvent::new_initial(1);
    let request = Request::new(vec![first, first]);
    let before = peers[1].graph.events.len();
    let response = peers[1].handle_request(1, request).unwrap();
    let copies = peers[1].graph.events.iter().filter(|event| event.packed == first).count();
    assert_eq!(copies, 1);
    // The event itself, and the one that acknowledges the request.
    assert_eq!(peers[1].graph.events.len(), before + 2);
    let sync = peers[1].graph.events.last().unwrap();
    assert_eq!(sync.packed.payload, Payload::Request);
    assert_eq!(sync.packed.creator, 2);
    assert_eq!(sync.packed.other_parent, Some(first.hash()));
    assert_eq!(response.events, vec![PackedEvent::new_initial(2), sync.packed]);
}

#[test]
fn unknown_parent() {
    let ids = [1u64, 2, 3];
    let mut peers = network(&ids);
    let orphan = PackedEvent::new_from_observation(1, 12345, 7);
    let before = packed(&peers[1]);
    let result = peers[1].handle_request(1, Request::new(vec![orphan]));
    assert_eq!(result, Err(Error::UnknownParent));
    assert_eq!(packed(&peers[1]), before);
    assert_eq!(peers[1].graph.events.len(), 1);
    assert_eq!(peers[1].peer_manager.peer_info(1), Some(&vec![]));
}

#[test]
fn unknown_other_parent() {
    let mut peers = network(&[1u64, 2, 3]);
    let own = PackedEvent::new_initial(2).hash();
    let event = PackedEvent::new_from_request(2, own, 999);
    assert_eq!(peers[1].add_event(event), Err(Error::UnknownParent));
    assert_eq!(peers[1].graph.events.len(), 1);
}

#[test]
fn other_parent_without_self_parent_is_invalid() {
    let mut peers = network(&[1u64, 2, 3]);
    let own = PackedEvent::new_initial(2).hash();
    let event = PackedEvent {
        creator: 1,
        self_parent: None,
        other_parent: Some(own),
        payload: Payload::Request,
    };
    assert_eq!(peers[1].add_event(event), Err(Error::InvalidEvent));
    assert_eq!(peers[1].graph.events.len(), 1);
}

#[test]
fn unknown_peer() {
    let mut peers = network(&[1u64, 2, 3]);
    assert_eq!(peers[1].add_event(PackedEvent::new_initial(4)), Err(Error::UnknownPeer));
    let own = PackedEvent::new_initial(2).hash();
    let foreign = PackedEvent::new_from_observation(4, own, 7);
    assert_eq!(peers[1].add_event(foreign), Err(Error::UnknownPeer));
    assert_eq!(peers[1].graph.events.len(), 1);
}

#[test]
fn a_fork_is_invalid() {
    let mut peers = network(&[1u64, 2, 3]);
    let first = PackedEvent::new_initial(2).hash();
    peers[1].vote_for(7).unwrap();
    // A second event on the first one, and one on another creator's event.
    let fork = PackedEvent::new_from_observation(2, first, 8);
    assert_eq!(peers[1].add_event(fork), Err(Error::InvalidEvent));
    assert_eq!(peers[1].add_event(PackedEvent::new_initial(1)), Ok(()));
    let stolen = PackedEvent::new_from_observation(1, first, 8);
    assert_eq!(peers[1].add_event(stolen), Err(Error::InvalidEvent));
    // A second opening event of a creator.
    let second_start = PackedEvent {
        creator: 1,
        self_parent: None,
        other_parent: None,
        payload: Payload::Vote(3),
    };
    assert_eq!(peers[1].add_event(second_start), Err(Error::InvalidEvent));
    assert_eq!(peers[1].graph.events.len(), 3);
}

#[test]
fn adding_an_event_twice_is_adding_it_once() {
    let mut peers = network(&[1u64, 2, 3]);
    let first = PackedEvent::new_initial(1);
    assert_eq!(peers[1].add_event(first), Ok(()));
    let events = packed(&peers[1]);
    let chains = peers[1].peer_manager.iter();
    assert_eq!(peers[1].add_event(first), Ok(()));
    assert_eq!(packed(&peers[1]), events);
    assert_eq!(peers[1].peer_manager.iter(), chains);
    assert_eq!(events.len(), 2);
}

#[test]
fn a_replayed_request_adds_only_its_acknowledgement() {
    let mut peers = network(&[1u64, 2, 3]);
    peers[0].vote_for(7).unwrap();
    let request = peers[0].create_gossip();
    peers[1].handle_request(1, request.clone()).unwrap();
    let once = packed(&peers[1]);
    peers[1].handle_request(1, request).unwrap();
    let twice = packed(&peers[1]);
    assert_eq!(twice.len(), once.len() + 1);
    assert_eq!(&twice[..once.len()], &once[..]);
    assert_eq!(twice.last().unwrap().payload, Payload::Request);
}

#[test]
fn sync_with_a_stranger_is_a_logic_error() {
    let mut peers = network(&[1u64, 2, 3]);
    assert_eq!(peers[1].handle_request(4, Request::new(vec![])), Err(Error::Logic));
    assert_eq!(peers[1].handle_response(3, Response::new(vec![])), Err(Error::Logic));
    assert_eq!(peers[1].create_sync_event(1, true), Err(Error::Logic));
    assert_eq!(peers[1].graph.events.len(), 1);
}

#[test]
fn voting_without_a_first_event_is_invalid() {
    let mut parsec = Parsec::new(1, &vec![1, 2, 3]).unwrap();
    parsec.graph = Graph::new();
    parsec.meta_votes.clear();
    parsec.peer_manager.chains[0].clear();
    assert_eq!(parsec.vote_for(7), Err(Error::InvalidEvent));
    assert_eq!(parsec.graph.events.len(), 0);
}

#[test]
fn votes_are_found_by_payload_and_creator() {
    let mut peers = network(&[1u64, 2, 3]);
    assert!(!peers[0].have_voted_for(7));
    peers[0].vote_for(7).unwrap();
    assert!(peers[0].have_voted_for(7));
    assert!(!peers[0].have_voted_for(8));
    let request = peers[0].create_gossip();
    peers[1].handle_request(1, request).unwrap();
    assert!(!peers[1].have_voted_for(7));
    assert!(peers[1].has_voted(0, 7));
    assert_eq!(peers[1].count_votes(7), 1);
    assert_eq!(peers[1].voters(7), vec![1]);
}

#[test]
fn gossip_carries_every_event_in_order() {
    let mut peers = network(&[1u64, 2, 3]);
    peers[0].vote_for(7).unwrap();
    let request = peers[0].create_gossip();
    let first = PackedEvent::new_initial(1);
    assert_eq!(
        request.events,
        vec![first, PackedEvent::new_from_observation(1, first.hash(), 7)]
    );
    assert_eq!(request.clone().unpack(), request.events);
}

#[test]
fn the_response_holds_what_the_sender_lacks() {
    let mut peers = network(&[1u64, 2, 3]);
    peers[1].vote_for(5).unwrap();
    let request = peers[0].create_gossip();
    let response = peers[1].handle_request(1, request).unwrap();
    let first = PackedEvent::new_initial(2);
    let vote = PackedEvent::new_from_observation(2, first.hash(), 5);
    let sync = PackedEvent::new_from_request(2, vote.hash(), PackedEvent::new_initial(1).hash());
    assert_eq!(response.events, vec![first, vote, sync]);
    peers[0].handle_response(2, response).unwrap();
    let ack = peers[0].graph.events.last().unwrap();
    assert_eq!(ack.packed, PackedEvent::new_from_response(1, PackedEvent::new_initial(1).hash(), sync.hash()));
    assert_eq!(ack.index, 1);
    assert_eq!(ack.last_ancestors, vec![Some(1), Some(2), None]);
    // The sender's first event has gained the receiver's acknowledgement as a descendant.
    assert_eq!(peers[0].graph.events[0].first_descendants, vec![Some(0), Some(2), None]);
    // Of our events, peer 2 has our first among the ancestors of its latest.
    assert_eq!(peers[0].response_to(2).events, vec![ack.packed]);
    assert_eq!(peers[0].response_to(9).events, vec![]);
}

#[test]
fn poll_hands_blocks_out_oldest_first() {
    let mut parsec = Parsec::new(1, &vec![1, 2, 3]).unwrap();
    assert_eq!(parsec.poll(), Ok(None));
    let a = parsec::Block::new(7, vec![1, 2, 3], 3).unwrap();
    let b = parsec::Block::new(8, vec![1, 2, 3], 3).unwrap();
    parsec.consensused_blocks.push(a.clone());
    parsec.consensused_blocks.push(b.clone());
    assert_eq!(parsec.poll(), Ok(Some(a)));
    assert_eq!(parsec.poll(), Ok(Some(b)));
    assert_eq!(parsec.poll(), Ok(None));
}

#[test]
fn graph_insert_checks_hash_and_parents() {
    let node = |packed: PackedEvent| Event {
        packed,
        hash: packed.hash(),
        index: 0,
        topological_index: 99,
        last_ancestors: vec![],
        first_descendants: vec![],
        valid_blocks_carried: vec![],
        observations: vec![],
    };
    let mut graph = Graph::new();
    let first = PackedEvent::new_initial(1);
    assert_eq!(graph.insert(node(first)), Ok(()));
    assert_eq!(graph.insert(node(first)), Err(Error::DuplicateEvent));
    let orphan = PackedEvent::new_from_observation(1, 555, 7);
    assert_eq!(graph.insert(node(orphan)), Err(Error::UnknownParent));
    let half = PackedEvent::new_from_request(1, first.hash(), 555);
    assert_eq!(graph.insert(node(half)), Err(Error::UnknownParent));
    let vote = PackedEvent::new_from_observation(1, first.hash(), 7);
    assert_eq!(graph.insert(node(vote)), Ok(()));
    assert_eq!(graph.len(), 2);
    assert_eq!(graph.events[1].topological_index, 1);
    assert!(graph.contains_hash(vote.hash()));
    assert!(!graph.contains_hash(555));
    assert_eq!(graph.find(vote.hash()), Some(1));
    assert_eq!(graph.find(555), None);
    assert_eq!(graph.get(first.hash()).map(|event| event.packed), Some(first));
    assert!(graph.get(555).is_none());
    assert_eq!(graph.parents_of(1), (Some(0), None));
}
