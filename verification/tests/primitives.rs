use parsec::hash::{absorb, digest, xor_closer, xor_distance, DIGEST_PRIME, DIGEST_SEED};
use parsec::metadata::{absent, ceil_log2, merged, nobody, strongly_sees};
use parsec::peer_manager::is_super_majority_of;
use parsec::round_hash::{peer_hash, RoundHash};
use parsec::digest_set::{holds, put, take, union};
use parsec::membership::MembershipListChange;
use parsec::{Block, Error, Event, PackedEvent, Payload, PeerManager};

#[test]
fn digest_of_nothing_is_the_seed() {
    assert_eq!(digest(&vec![]), DIGEST_SEED);
    assert_eq!(digest(&vec![]), 14695981039346656037);
}

#[test]
fn digest_folds_from_the_left() {
    assert_eq!(digest(&vec![0]), 12638153115695167455);
    assert_eq!(digest(&vec![1, 2, 3]), 15035938162879559083);
    assert_eq!(digest(&vec![1, 2, 3]), absorb(absorb(absorb(DIGEST_SEED, 1), 2), 3));
}

#[test]
fn absorb_multiplies_modulo_two_to_the_64() {
    assert_eq!(absorb(0, 0), 0);
    assert_eq!(absorb(1, 0), DIGEST_PRIME);
    assert_eq!(absorb(0, 1), 1099511628211);
    assert_eq!(absorb(u64::MAX, 0), 18446742974197923405);
}

#[test]
fn xor_distance_and_order() {
    assert_eq!(xor_distance(0b1100, 0b1010), 0b0110);
    assert_eq!(xor_distance(7, 7), 0);
    assert!(xor_closer(8, 9, 1));
    assert!(!xor_closer(8, 1, 9));
    assert!(!xor_closer(8, 9, 9));
}

#[test]
fn event_hashes_cover_creator_parents_and_payload() {
    assert_eq!(PackedEvent::new_initial(5).hash(), 11308169645525322848);
    assert_eq!(PackedEvent::new_from_observation(5, 9, 7).hash(), 15154803775384115550);
    assert_eq!(PackedEvent::new_from_request(5, 9, 4).hash(), 5736247569354454753);
    assert_eq!(PackedEvent::new_from_response(5, 9, 4).hash(), 5735290994238100408);
    assert_ne!(PackedEvent::new_initial(5).hash(), PackedEvent::new_initial(6).hash());
}

#[test]
fn event_constructors_and_getters() {
    let initial = PackedEvent::new_initial(5);
    assert!(initial.is_initial());
    assert_eq!(initial.vote(), None);
    assert_eq!(initial.payload, Payload::Empty);
    let vote = PackedEvent::new_from_observation(5, 9, 7);
    assert!(!vote.is_initial());
    assert_eq!(vote.vote(), Some(7));
    assert_eq!(vote.self_parent, Some(9));
    assert_eq!(vote.other_parent, None);
    let request = PackedEvent::new_from_request(5, 9, 4);
    assert_eq!(request.payload, Payload::Request);
    assert_eq!(request.other_parent, Some(4));
    assert!(!request.is_response());
    let response = PackedEvent::new_from_response(5, 9, 4);
    assert!(response.is_response());
    assert_eq!(response.vote(), None);
}

#[test]
fn round_hashes_chain_from_id_and_salt() {
    let r0 = RoundHash::new(5);
    assert_eq!(r0.value(), 6070846316423114224);
    let r1 = r0.next();
    assert_eq!(r1.value(), 14651298468798723055);
    assert_eq!(r1.next().value(), 17065576810782181182);
    assert_eq!(peer_hash(5), 12638147618137026400);
    assert_eq!(peer_hash(1), 12638152016183539244);
}

#[test]
fn super_majority_is_strictly_more_than_two_thirds() {
    assert!(!is_super_majority_of(2, 3));
    assert!(is_super_majority_of(3, 3));
    assert!(!is_super_majority_of(4, 6));
    assert!(is_super_majority_of(5, 6));
    assert!(!is_super_majority_of(4, 7));
    assert!(is_super_majority_of(5, 7));
    assert!(!is_super_majority_of(0, 0));
    assert!(is_super_majority_of(1, 0));
    assert!(is_super_majority_of(usize::MAX, usize::MAX));
    assert!(!is_super_majority_of(usize::MAX / 2, usize::MAX));
}

#[test]
fn responsiveness_threshold_is_the_rounded_up_logarithm() {
    assert_eq!(ceil_log2(0), 0);
    assert_eq!(ceil_log2(1), 0);
    assert_eq!(ceil_log2(2), 1);
    assert_eq!(ceil_log2(3), 2);
    assert_eq!(ceil_log2(4), 2);
    assert_eq!(ceil_log2(5), 3);
    assert_eq!(ceil_log2(7), 3);
    assert_eq!(ceil_log2(8), 3);
    assert_eq!(ceil_log2(9), 4);
    assert_eq!(ceil_log2(1024), 10);
    assert_eq!(ceil_log2(1025), 11);
    assert_eq!(ceil_log2(usize::MAX), usize::BITS as usize);
}

#[test]
fn merged_takes_the_later_entry_of_each_slot() {
    let own = vec![Some(3), None, Some(1), None];
    let other = vec![Some(2), Some(5), Some(4), None];
    assert_eq!(merged(&own, &other), vec![Some(3), Some(5), Some(4), None]);
    assert_eq!(absent(3), vec![None, None, None]);
    assert_eq!(nobody(2), vec![false, false]);
}

#[test]
fn strong_seeing_counts_linked_slots() {
    let last_ancestors = vec![Some(4), Some(2), None, Some(0)];
    let linked_three = vec![Some(4), Some(1), Some(0), Some(0)];
    assert!(strongly_sees(&last_ancestors, &linked_three, 4));
    let linked_two = vec![Some(5), Some(1), Some(0), Some(0)];
    assert!(!strongly_sees(&last_ancestors, &linked_two, 4));
    let none = vec![None, None, None, None];
    assert!(!strongly_sees(&last_ancestors, &none, 4));
}

#[test]
fn digest_sets_stay_ascending() {
    let mut set: Vec<u64> = Vec::new();
    put(&mut set, 5);
    put(&mut set, 2);
    put(&mut set, 9);
    put(&mut set, 5);
    assert_eq!(set, vec![2, 5, 9]);
    assert!(holds(&set, 9));
    assert!(!holds(&set, 4));
    assert_eq!(union(&set, &vec![1, 5, 10]), vec![1, 2, 5, 9, 10]);
    assert_eq!(union(&vec![], &vec![]), Vec::<u64>::new());
}

#[test]
fn block_needs_a_super_majority_of_voters() {
    let block = Block::new(7, vec![1, 2, 3], 4).unwrap();
    assert_eq!(block.payload(), 7);
    assert_eq!(block.voters, vec![1, 2, 3]);
    assert_eq!(Block::new(7, vec![1, 2], 4), Err(Error::InsufficientVotes));
    assert_eq!(Block::new(7, vec![], 0), Err(Error::InsufficientVotes));
}

#[test]
fn peer_manager_keeps_members_in_order() {
    let mut peers = PeerManager::new(20);
    assert_eq!(peers.our_id(), 20);
    peers.add_peer(30);
    peers.add_peer(10);
    peers.add_peer(20);
    assert_eq!(peers.all_ids(), vec![10, 20, 30]);
    assert_eq!(peers.len(), 3);
    assert_eq!(peers.slot_of(30), Some(2));
    assert_eq!(peers.slot_of(40), None);
    assert!(peers.is_super_majority(3));
    assert!(!peers.is_super_majority(2));
    assert_eq!(peers.our_info(), &Vec::<u64>::new());
    assert_eq!(peers.peer_info(40), None);
    assert_eq!(peers.last_event_index(10), None);
    assert_eq!(peers.last_event_hash(10), None);
}

#[test]
fn peer_manager_records_events_by_index() {
    let mut peers = PeerManager::new(20);
    peers.add_peer(10);
    assert_eq!(peers.record(10, 0, 111), Ok(None));
    assert_eq!(peers.record(10, 1, 222), Ok(None));
    assert_eq!(peers.record(10, 0, 333), Ok(Some(111)));
    assert_eq!(peers.record(10, 3, 444), Err(Error::InvalidEvent));
    assert_eq!(peers.record(40, 0, 555), Err(Error::UnknownPeer));
    assert_eq!(peers.last_event_index(10), Some(1));
    assert_eq!(peers.last_event_hash(10), Some(222));
    assert_eq!(peers.event_by_index(10, 0), Some(333));
    assert_eq!(peers.event_by_index(10, 2), None);
    assert_eq!(peers.event_by_index(40, 0), None);
    assert_eq!(peers.peer_info(10), Some(&vec![333, 222]));
    assert_eq!(peers.iter(), vec![(10, vec![333, 222]), (20, vec![])]);
}

#[test]
fn peer_manager_records_an_event_under_its_index_and_hash() {
    let mut peers = PeerManager::new(20);
    let packed = PackedEvent::new_initial(20);
    let event = Event {
        packed,
        hash: packed.hash(),
        index: 0,
        topological_index: 0,
        last_ancestors: vec![Some(0)],
        first_descendants: vec![Some(0)],
        valid_blocks_carried: vec![],
        observations: vec![false],
    };
    assert_eq!(peers.add_event(20, &event), Ok(None));
    assert_eq!(peers.add_event(20, &event), Ok(Some(packed.hash())));
    assert_eq!(peers.add_event(30, &event), Err(Error::UnknownPeer));
    assert_eq!(peers.our_info(), &vec![packed.hash()]);
    assert_eq!(peers.last_event_hash(20), Some(packed.hash()));
}

#[test]
fn taking_out_of_a_set() {
    let mut set: Vec<u64> = vec![2, 5, 9];
    assert!(take(&mut set, 5));
    assert_eq!(set, vec![2, 9]);
    assert!(!take(&mut set, 5));
    assert_eq!(set, vec![2, 9]);
    assert!(take(&mut set, 9));
    assert!(take(&mut set, 2));
    assert!(set.is_empty());
    assert!(!take(&mut set, 2));
}

#[test]
fn membership_changes_apply_and_revert() {
    let mut peers: Vec<u64> = vec![10, 30];
    let join = MembershipListChange::Add(20);
    let leave = MembershipListChange::Remove(30);
    assert!(!join.is_remove());
    assert!(leave.is_remove());
    assert!(join.apply(&mut peers));
    assert_eq!(peers, vec![10, 20, 30]);
    assert!(!join.apply(&mut peers));
    assert_eq!(peers, vec![10, 20, 30]);
    assert!(leave.apply(&mut peers));
    assert_eq!(peers, vec![10, 20]);
    assert!(!leave.apply(&mut peers));
    assert!(leave.revert(&mut peers));
    assert_eq!(peers, vec![10, 20, 30]);
    assert!(!leave.revert(&mut peers));
    assert!(join.revert(&mut peers));
    assert_eq!(peers, vec![10, 30]);
    assert!(!join.revert(&mut peers));
    assert_eq!(peers, vec![10, 30]);
}
