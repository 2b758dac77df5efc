use parsec::elect::vote_le;
use parsec::meta_vote::{BoolSet, MetaVote, Step};
use parsec::round_hash::RoundHash;
use parsec::{Block, PackedEvent, Parsec};

fn decided(value: bool) -> MetaVote {
    MetaVote {
        round: 0,
        step: Step::GenuineFlip,
        estimates: BoolSet::single(value),
        bin_values: BoolSet::single(value),
        aux_value: Some(value),
        decision: Some(value),
    }
}

// Peer 1 of three, to which the votes of all three for the payload 7 have
// come, its own first:
//   0: 1_0   1: 1_1 (vote)   2: 2_0   3: 2_1 (vote)   4: 3_0   5: 3_1 (vote)
fn three_votes() -> (Parsec, Vec<PackedEvent>) {
    let mut parsec = Parsec::new(1, &vec![1, 2, 3]).unwrap();
    parsec.vote_for(7).unwrap();
    let mut events = vec![parsec.graph.events[0].packed, parsec.graph.events[1].packed];
    for peer in [2u64, 3] {
        let first = PackedEvent::new_initial(peer);
        let vote = PackedEvent::new_from_observation(peer, first.hash(), 7);
        parsec.add_event(first).unwrap();
        parsec.add_event(vote).unwrap();
        events.push(first);
        events.push(vote);
    }
    (parsec, events)
}

#[test]
fn the_vote_that_completes_a_super_majority_carries_a_valid_block() {
    let (parsec, events) = three_votes();
    assert_eq!(parsec.count_votes(7), 3);
    assert_eq!(parsec.count_votes(8), 0);
    for at in 0..5 {
        assert!(parsec.graph.events[at].valid_blocks_carried.is_empty());
    }
    assert_eq!(parsec.graph.events[5].valid_blocks_carried, vec![events[5].hash()]);
}

#[test]
fn valid_blocks_are_handed_down_to_descendants() {
    let (mut parsec, events) = three_votes();
    // We acknowledge a message from peer 3, then peer 2 one from us.
    parsec.create_sync_event(3, true).unwrap();
    let ours = parsec.graph.events[6].packed;
    assert_eq!(ours.other_parent, Some(events[5].hash()));
    assert_eq!(parsec.graph.events[6].valid_blocks_carried, vec![events[5].hash()]);
    let theirs = PackedEvent::new_from_response(2, events[3].hash(), ours.hash());
    parsec.add_event(theirs).unwrap();
    assert_eq!(parsec.graph.events[7].valid_blocks_carried, vec![events[5].hash()]);
    // A later vote for the same payload carries itself as well; the set ascends.
    let again = PackedEvent::new_from_observation(2, theirs.hash(), 7);
    parsec.add_event(again).unwrap();
    let mut both = vec![events[5].hash(), again.hash()];
    both.sort();
    assert_eq!(parsec.graph.events[8].valid_blocks_carried, both);
}

#[test]
fn the_oldest_valid_block_is_read_off_the_whole_chain() {
    let (mut parsec, events) = three_votes();
    assert_eq!(parsec.oldest_event_with_valid_block(0), None);
    assert_eq!(parsec.oldest_event_with_valid_block(1), None);
    assert_eq!(parsec.oldest_event_with_valid_block(2), Some(5));
    assert_eq!(parsec.chain_carried(2), vec![events[5].hash()]);
    assert_eq!(parsec.chain_carried(0), Vec::<u64>::new());
    parsec.create_sync_event(3, true).unwrap();
    assert_eq!(parsec.oldest_event_with_valid_block(0), Some(5));
    // Our next event's self-parent holds meta-votes: it carries nothing,
    // and the chain still carries what its earlier events do.
    let mut open = decided(true);
    open.step = Step::ForcedTrue;
    open.decision = None;
    parsec.meta_votes[6] = Some(vec![open; 3]);
    parsec.create_sync_event(2, false).unwrap();
    assert_eq!(parsec.meta_votes[7], Some(vec![open; 3]));
    assert!(parsec.graph.events[7].valid_blocks_carried.is_empty());
    assert_eq!(parsec.oldest_event_with_valid_block(0), Some(5));
    assert_eq!(parsec.restart_point(), Some(5));
}

#[test]
fn of_two_valid_blocks_the_one_with_the_lesser_index_is_the_oldest() {
    let (mut parsec, events) = three_votes();
    // Peer 2 votes once more, for a payload that peer 3 and we vote for too.
    let second = PackedEvent::new_from_observation(2, events[3].hash(), 9);
    parsec.add_event(second).unwrap();
    parsec.vote_for(9).unwrap();
    let third = PackedEvent::new_from_observation(3, events[5].hash(), 9);
    parsec.add_event(third).unwrap();
    let at = parsec.graph.len() - 1;
    let mut both = vec![events[5].hash(), third.hash()];
    both.sort();
    assert_eq!(parsec.graph.events[at].valid_blocks_carried, both);
    // 3_1 has the index 1, 3_2 the index 2.
    assert_eq!(parsec.oldest_event_with_valid_block(2), Some(5));
}

#[test]
fn observations_name_the_peers_that_strongly_see_their_oldest_valid_block() {
    let (mut parsec, _) = three_votes();
    assert!(!parsec.observes(0));
    assert!(!parsec.observes(2));
    assert!(!parsec.is_observer(5));
    // Round-robin acknowledgements until the valid block is strongly seen.
    let mut first_observer = None;
    for round in 0..6 {
        let src = if round % 2 == 0 { 3 } else { 2 };
        parsec.create_sync_event(src, true).unwrap();
        let ours = parsec.graph.events.last().unwrap().packed;
        let last = parsec.peer_manager.last_event_hash(src).unwrap();
        parsec.add_event(PackedEvent::new_from_response(src, last, ours.hash())).unwrap();
        let at = parsec.graph.len() - 1;
        if first_observer.is_none() && parsec.is_observer(at) {
            first_observer = Some(at);
        }
    }
    let at = first_observer.unwrap();
    assert_eq!(parsec.graph.events[at].observations, vec![true, true, true]);
    let votes = parsec.meta_votes[at].as_ref().unwrap();
    assert_eq!(votes.len(), 3);
    for vote in votes {
        assert_eq!(vote.round, 0);
        assert_eq!(vote.step, Step::ForcedTrue);
        assert_eq!(vote.estimates, BoolSet::single(true));
        assert_eq!(vote.aux_value, Some(true));
    }
    // The agreements opened: the round hashes of round 0 are kept.
    for (slot, chain) in parsec.round_hashes.iter().enumerate() {
        assert_eq!(chain[0], RoundHash::new(slot as u64 + 1));
    }
    // The event before it was no observer and holds no meta-votes.
    assert!(!parsec.is_observer(at - 1));
    assert!(parsec.meta_votes[at - 1].is_none());
    // The events that follow on the observer's chain derive their votes.
    let creator = parsec.graph.events[at].creator();
    let next = (at + 1..parsec.graph.len())
        .find(|later| parsec.graph.events[*later].creator() == creator);
    if let Some(next) = next {
        assert!(parsec.in_round(next));
        assert!(parsec.meta_votes[next].is_some());
        assert_eq!(parsec.graph.events[next].observations, vec![false, false, false]);
    }
}

#[test]
fn votes_are_ordered_with_no_vote_first() {
    assert!(vote_le(None, None));
    assert!(vote_le(None, Some(0)));
    assert!(!vote_le(Some(0), None));
    assert!(vote_le(Some(3), Some(3)));
    assert!(vote_le(Some(3), Some(4)));
    assert!(!vote_le(Some(4), Some(3)));
}

#[test]
fn the_payload_with_most_support_wins_and_ties_go_to_the_greater() {
    let mut parsec = Parsec::new(1, &vec![1, 2, 3, 4]).unwrap();
    // Places 1 to 4: votes of ours for 5, 9, 9 and 5; place 0 holds no vote.
    for payload in [5u64, 9, 9, 5] {
        parsec.vote_for(payload).unwrap();
    }
    assert_eq!(parsec.winner(&vec![]), None);
    assert_eq!(parsec.winner(&vec![1]), Some(Some(5)));
    assert_eq!(parsec.winner(&vec![1, 2, 3]), Some(Some(9)));
    assert_eq!(parsec.winner(&vec![1, 2, 4]), Some(Some(5)));
    assert_eq!(parsec.winner(&vec![1, 2, 3, 4]), Some(Some(9)));
    assert_eq!(parsec.winner(&vec![2, 1]), Some(Some(9)));
    assert_eq!(parsec.winner(&vec![0, 1]), Some(Some(5)));
    assert_eq!(parsec.winner(&vec![0, 0, 1]), Some(None));
    assert_eq!(parsec.support(&vec![1, 2, 3, 4, 0], Some(9)), 2);
    assert_eq!(parsec.support(&vec![1, 2, 3, 4, 0], None), 1);
    assert_eq!(parsec.support(&vec![1, 2, 3, 4, 0], Some(6)), 0);
}

#[test]
fn a_block_is_due_when_our_latest_event_holds_only_decisions() {
    let (mut parsec, events) = three_votes();
    assert_eq!(parsec.next_stable_block(), None);
    parsec.create_sync_event(3, true).unwrap();
    assert!(parsec.decided_votes().is_none());
    // An undecided agreement keeps the block back.
    let mut votes = vec![decided(true), decided(false), decided(true)];
    votes[1].decision = None;
    parsec.meta_votes[6] = Some(votes);
    assert_eq!(parsec.next_stable_block(), None);
    // Decided for peer 3 and for us: both chains carry the block of 3_1.
    parsec.meta_votes[6] = Some(vec![decided(true), decided(false), decided(true)]);
    assert_eq!(parsec.decided_votes().map(|votes| votes.len()), Some(3));
    let votes = parsec.meta_votes[6].clone().unwrap();
    assert_eq!(parsec.elected_events(&votes), vec![5, 5]);
    let block = parsec.next_stable_block().unwrap();
    assert_eq!(block, Block::new(7, vec![1, 2, 3], 3).unwrap());
    // Decided against every peer: nothing is elected.
    parsec.meta_votes[6] = Some(vec![decided(false); 3]);
    assert_eq!(parsec.next_stable_block(), None);
    assert_eq!(events.len(), 6);
}

#[test]
fn a_block_clears_the_agreements_and_retires_its_valid_blocks() {
    let (mut parsec, events) = three_votes();
    parsec.create_sync_event(3, true).unwrap();
    parsec.grow_round_hashes(1, 2);
    parsec.meta_votes[6] = Some(vec![decided(true); 3]);
    parsec.graph.events[6].observations = vec![true, true, true];
    assert_eq!(parsec.retained(6, 8), vec![events[5].hash()]);
    assert_eq!(parsec.retained(6, 7), Vec::<u64>::new());
    parsec.clear_consensus_data(7);
    assert!(parsec.meta_votes.iter().all(|votes| votes.is_none()));
    assert!(parsec.round_hashes.iter().all(|chain| chain.is_empty()));
    for event in parsec.graph.events.iter() {
        assert!(event.valid_blocks_carried.is_empty());
        assert_eq!(event.observations, vec![false, false, false]);
    }
    assert_eq!(parsec.restart_point(), None);
    assert_eq!(parsec.graph.len(), 7);
}

#[test]
fn settling_concludes_the_block_that_is_due() {
    let (mut parsec, _) = three_votes();
    parsec.create_sync_event(3, true).unwrap();
    parsec.meta_votes[6] = Some(vec![decided(true); 3]);
    parsec.settle();
    assert_eq!(parsec.consensused_blocks, vec![Block::new(7, vec![1, 2, 3], 3).unwrap()]);
    assert!(parsec.meta_votes.iter().all(|votes| votes.is_none()));
    parsec.settle();
    assert_eq!(parsec.consensused_blocks.len(), 1);
    assert_eq!(parsec.poll().unwrap().map(|block| block.payload), Some(7));
    assert_eq!(parsec.poll(), Ok(None));
}
