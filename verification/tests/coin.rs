use parsec::coin::coin_round;
use parsec::hash::xor_distance;
use parsec::meta_vote::{BoolSet, MetaVote, Step};
use parsec::round_hash::{peer_hash, RoundHash};
use parsec::{PackedEvent, Parsec, PeerId, Response};

fn awaiting(round: u32) -> MetaVote {
    MetaVote {
        round,
        step: Step::ForcedTrue,
        estimates: BoolSet::empty(),
        bin_values: BoolSet::empty(),
        aux_value: None,
        decision: None,
    }
}

fn flip(round: u32, aux: Option<bool>) -> MetaVote {
    MetaVote {
        round,
        step: Step::GenuineFlip,
        estimates: BoolSet::single(true),
        bin_values: BoolSet { has_true: true, has_false: true },
        aux_value: aux,
        decision: None,
    }
}

// Peer 1 of eight, after responses from the peers 2, 3, 4 and 5, each of
// which carried the sender's first event. Our events stand at the places
// 0, 2, 4, 6 and 8 of the graph, those of the senders between them.
fn after_four_responses() -> Parsec {
    let ids: Vec<PeerId> = (1..=8).collect();
    let mut parsec = Parsec::new(1, &ids).unwrap();
    for src in [2u64, 3, 4, 5] {
        parsec
            .handle_response(src, Response::new(vec![PackedEvent::new_initial(src)]))
            .unwrap();
    }
    assert_eq!(parsec.graph.len(), 9);
    for at in [2usize, 4, 6, 8] {
        assert!(parsec.graph.events[at].packed.is_response());
        assert_eq!(parsec.graph.events[at].creator(), 1);
    }
    parsec
}

#[test]
fn a_vote_asks_for_the_coin_of_its_round_or_the_one_before() {
    assert_eq!(coin_round(&awaiting(3)), Some(2));
    assert_eq!(coin_round(&awaiting(0)), None);
    assert_eq!(coin_round(&flip(3, None)), Some(3));
    let mut early = flip(3, None);
    early.step = Step::ForcedFalse;
    assert_eq!(coin_round(&early), None);
    early.step = Step::ForcedTrue;
    assert_eq!(coin_round(&early), None);
}

#[test]
fn leaders_are_ranked_by_distance_from_the_round_hash() {
    let parsec = after_four_responses();
    let target = RoundHash::new(1).value();
    let order = parsec.leaders(target);
    assert_eq!(order.len(), 8);
    let mut slots = order.clone();
    slots.sort();
    assert_eq!(slots, vec![0, 1, 2, 3, 4, 5, 6, 7]);
    for pair in order.windows(2) {
        let near = xor_distance(target, peer_hash(pair[0] as u64 + 1));
        let far = xor_distance(target, peer_hash(pair[1] as u64 + 1));
        assert!(near < far);
    }
    assert_eq!(parsec.leaders(peer_hash(3))[0], 2);
    assert_eq!(parsec.leaders(peer_hash(8))[0], 7);
}

#[test]
fn round_hashes_grow_to_the_round_asked_for() {
    let mut parsec = after_four_responses();
    assert!(parsec.round_hashes.iter().all(|chain| chain.is_empty()));
    parsec.grow_round_hashes(4, 2);
    assert_eq!(parsec.round_hashes[4].len(), 3);
    assert_eq!(parsec.round_hashes[4][0], RoundHash::new(5));
    assert_eq!(parsec.round_hashes[4][1], RoundHash::new(5).next());
    assert_eq!(parsec.round_hashes[4][2].value(), 17065576810782181182);
    parsec.grow_round_hashes(4, 1);
    assert_eq!(parsec.round_hashes[4].len(), 3);
    assert!(parsec.round_hashes[3].is_empty());
}

#[test]
fn responsiveness_threshold() {
    let mut parsec = after_four_responses();
    assert_eq!(parsec.responsiveness_threshold, 3);
    // The agreement is about the peer at slot 0; its coin is that of round 0.
    let about = 0;
    parsec.grow_round_hashes(about, 0);
    let order = parsec.leaders(parsec.round_hashes[about][0].value());
    // Our first response event awaited the coin already.
    parsec.meta_votes[2] = Some(vec![awaiting(1); 8]);
    // The senders put values forward in the third step of round 0, all but
    // the first leader, should it be one of them.
    let places = [(1usize, 1usize), (2, 3), (3, 5), (4, 7)];
    for (slot, at) in places {
        if slot != order[0] {
            parsec.meta_votes[at] = Some(vec![flip(0, Some(slot % 2 == 0)); 8]);
        }
    }
    // The first leader has no value.
    assert_eq!(parsec.leader_value(about, 0, 6, order[0]), None);
    assert_eq!(parsec.leader_value(about, 0, 8, order[0]), None);

    // Two response events back from our third one the chain ends: no toss.
    assert!(!parsec.stop_waiting(about, 0, 6));
    assert_eq!(parsec.toss_coin(about, &awaiting(1), 6), None);

    // Three response events back from our fourth one we awaited the coin
    // already: the toss is the value of the next leader that has one.
    assert!(parsec.stop_waiting(about, 0, 8));
    let next = order[1..]
        .iter()
        .find(|slot| **slot != 0 && **slot <= 4)
        .unwrap();
    assert_eq!(parsec.toss_coin(about, &awaiting(1), 8), Some(next % 2 == 0));
    assert_eq!(parsec.coin_from(about, 0, 8, &order), Some(next % 2 == 0));
    // A vote that asks for no coin gets none, nor one whose round hash is not kept.
    assert_eq!(parsec.toss_coin(about, &awaiting(0), 8), None);
    assert_eq!(parsec.toss_coin(about, &awaiting(5), 8), None);
    assert_eq!(parsec.toss_coin(1, &awaiting(1), 8), None);
}

#[test]
fn the_first_leader_decides_the_coin_without_a_wait() {
    let mut parsec = after_four_responses();
    let about = 0;
    parsec.grow_round_hashes(about, 0);
    let order = parsec.leaders(parsec.round_hashes[about][0].value());
    let places = [(1usize, 1usize), (2, 3), (3, 5), (4, 7)];
    // Whoever leads: give every sender a value, the leader's differing from the rest.
    for (slot, at) in places {
        parsec.meta_votes[at] = Some(vec![flip(0, Some(slot == order[0])); 8]);
    }
    let toss = parsec.toss_coin(about, &flip(0, None), 8);
    if order[0] >= 1 && order[0] <= 4 {
        assert_eq!(toss, Some(true));
    } else {
        // The leader has no event among our ancestors, and we have not waited.
        assert_eq!(toss, None);
    }
}

#[test]
fn the_most_recent_vote_at_a_round_and_step_is_found_down_the_chain() {
    let mut parsec = after_four_responses();
    // Our chain: a vote at the third step of round 0, then two at round 1.
    parsec.meta_votes[4] = Some(vec![flip(0, Some(true)); 8]);
    parsec.meta_votes[6] = Some(vec![awaiting(1); 8]);
    let mut later = flip(1, None);
    later.step = Step::ForcedFalse;
    parsec.meta_votes[8] = Some(vec![later; 8]);
    assert_eq!(
        parsec.most_recent_meta_vote(0, 4, 3, 0, Step::GenuineFlip),
        Some(flip(0, Some(true)))
    );
    assert_eq!(parsec.most_recent_meta_vote(0, 4, 3, 1, Step::ForcedTrue), Some(awaiting(1)));
    assert_eq!(parsec.most_recent_meta_vote(0, 4, 3, 1, Step::ForcedFalse), Some(later));
    // Nothing at a step that the chain passed over, nor below the first vote.
    assert_eq!(parsec.most_recent_meta_vote(0, 4, 3, 0, Step::ForcedFalse), None);
    assert_eq!(parsec.most_recent_meta_vote(0, 4, 3, 2, Step::ForcedTrue), None);
    assert_eq!(parsec.most_recent_meta_vote(0, 1, 3, 0, Step::GenuineFlip), None);
    assert_eq!(parsec.most_recent_meta_vote(0, 9, 3, 0, Step::GenuineFlip), None);
    assert_eq!(parsec.aux_value(0, 4, 3, 0), Some(true));
    assert_eq!(parsec.aux_value(0, 3, 3, 1), None);
    // The votes of the other creators, as our latest event sees them.
    parsec.meta_votes[1] = Some(vec![flip(0, Some(false)); 8]);
    assert_eq!(
        parsec.collect_other_meta_votes(3, 0, Step::GenuineFlip, 8),
        vec![flip(0, Some(true)), flip(0, Some(false))]
    );
    assert_eq!(parsec.collect_other_meta_votes(3, 0, Step::GenuineFlip, 2), vec![flip(0, Some(false))]);
}
