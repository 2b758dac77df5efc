use parsec::meta_vote::{BoolSet, MetaVote, Step};

fn vote(round: u32, step: Step, estimate: Option<bool>, aux: Option<bool>) -> MetaVote {
    MetaVote {
        round,
        step,
        estimates: match estimate {
            Some(value) => BoolSet::single(value),
            None => BoolSet::empty(),
        },
        bin_values: match aux {
            Some(value) => BoolSet::single(value),
            None => BoolSet::empty(),
        },
        aux_value: aux,
        decision: None,
    }
}

fn decided(round: u32, step: Step, value: bool) -> MetaVote {
    MetaVote {
        round,
        step,
        estimates: BoolSet::single(value),
        bin_values: BoolSet::single(value),
        aux_value: Some(value),
        decision: Some(value),
    }
}

#[test]
fn bool_sets() {
    assert!(BoolSet::empty().is_empty());
    assert!(BoolSet::single(true).contains(true));
    assert!(!BoolSet::single(true).contains(false));
    assert!(BoolSet::single(false).contains(false));
    assert!(!BoolSet::single(false).is_empty());
    assert_eq!(Step::ForcedTrue.number(), 0);
    assert_eq!(Step::ForcedFalse.number(), 1);
    assert_eq!(Step::GenuineFlip.number(), 2);
}

#[test]
fn opening_vote_notes_its_own_estimate_among_three() {
    let v = MetaVote::new(true, &vec![], 3);
    assert_eq!(v, vote(0, Step::ForcedTrue, Some(true), Some(true)));
    let w = MetaVote::new(false, &vec![], 3);
    assert_eq!(w, vote(0, Step::ForcedTrue, Some(false), Some(false)));
}

#[test]
fn opening_vote_among_four_needs_a_second_estimate() {
    let alone = MetaVote::new(true, &vec![], 4);
    assert_eq!(alone, vote(0, Step::ForcedTrue, Some(true), None));
    let backed = MetaVote::new(true, &vec![vote(0, Step::ForcedTrue, Some(true), None)], 4);
    assert_eq!(backed, vote(0, Step::ForcedTrue, Some(true), Some(true)));
}

#[test]
fn first_step_favours_true_when_both_values_have_support() {
    let others = vec![
        vote(0, Step::ForcedTrue, Some(false), None),
        vote(0, Step::ForcedTrue, Some(false), None),
        vote(0, Step::ForcedTrue, Some(true), None),
    ];
    let v = MetaVote::new(true, &others, 4);
    assert_eq!(v.bin_values, BoolSet { has_true: true, has_false: true });
    assert_eq!(v.aux_value, Some(true));
    assert_eq!(v.step, Step::ForcedTrue);
}

#[test]
fn second_step_favours_false_when_both_values_have_support() {
    let parent = vote(0, Step::ForcedFalse, Some(true), None);
    let others = vec![
        vote(0, Step::ForcedFalse, Some(false), None),
        vote(0, Step::ForcedFalse, Some(false), None),
        vote(0, Step::ForcedFalse, Some(true), None),
    ];
    let v = MetaVote::next(&parent, &others, None, 4);
    assert_eq!(v.bin_values, BoolSet { has_true: true, has_false: true });
    assert_eq!(v.aux_value, Some(false));
}

#[test]
fn a_vote_does_not_advance_in_the_event_that_sets_its_value() {
    let parent = vote(0, Step::ForcedTrue, Some(true), None);
    let others = vec![
        vote(0, Step::ForcedTrue, Some(true), Some(true)),
        vote(0, Step::ForcedTrue, Some(true), Some(true)),
    ];
    let v = MetaVote::next(&parent, &others, None, 3);
    assert_eq!(v, vote(0, Step::ForcedTrue, Some(true), Some(true)));
    let next = MetaVote::next(&v, &others, None, 3);
    assert_eq!(next, vote(0, Step::ForcedFalse, Some(true), None));
}

#[test]
fn first_step_hands_false_on_only_for_a_super_majority_of_false() {
    let parent = vote(0, Step::ForcedTrue, Some(false), Some(false));
    let all_false = vec![
        vote(0, Step::ForcedTrue, Some(false), Some(false)),
        vote(0, Step::ForcedTrue, Some(false), Some(false)),
    ];
    assert_eq!(
        MetaVote::next(&parent, &all_false, None, 3),
        vote(0, Step::ForcedFalse, Some(false), None)
    );
    let split = vec![
        vote(0, Step::ForcedTrue, Some(false), Some(false)),
        vote(0, Step::ForcedTrue, Some(true), Some(true)),
    ];
    assert_eq!(
        MetaVote::next(&parent, &split, None, 3),
        vote(0, Step::ForcedFalse, Some(true), None)
    );
}

#[test]
fn second_step_hands_true_on_only_for_a_super_majority_of_true() {
    let parent = vote(0, Step::ForcedFalse, Some(true), Some(true));
    let all_true = vec![
        vote(0, Step::ForcedFalse, Some(true), Some(true)),
        vote(0, Step::ForcedFalse, Some(true), Some(true)),
    ];
    assert_eq!(
        MetaVote::next(&parent, &all_true, None, 3),
        vote(0, Step::GenuineFlip, Some(true), None)
    );
    let split = vec![
        vote(0, Step::ForcedFalse, Some(true), Some(true)),
        vote(0, Step::ForcedFalse, Some(false), Some(false)),
    ];
    assert_eq!(
        MetaVote::next(&parent, &split, None, 3),
        vote(0, Step::GenuineFlip, Some(false), None)
    );
}

#[test]
fn third_step_decides_for_a_super_majority() {
    let parent = vote(2, Step::GenuineFlip, Some(true), Some(true));
    let others = vec![
        vote(2, Step::GenuineFlip, Some(true), Some(true)),
        vote(2, Step::GenuineFlip, Some(true), Some(true)),
    ];
    assert_eq!(MetaVote::next(&parent, &others, None, 3), decided(2, Step::GenuineFlip, true));
    let parent = vote(2, Step::GenuineFlip, Some(false), Some(false));
    let others = vec![
        vote(2, Step::GenuineFlip, Some(false), Some(false)),
        vote(2, Step::GenuineFlip, Some(false), Some(false)),
    ];
    assert_eq!(MetaVote::next(&parent, &others, None, 3), decided(2, Step::GenuineFlip, false));
}

#[test]
fn third_step_turns_to_the_coin_when_the_values_are_split() {
    let parent = vote(2, Step::GenuineFlip, Some(true), Some(true));
    let others = vec![
        vote(2, Step::GenuineFlip, Some(true), Some(true)),
        vote(2, Step::GenuineFlip, Some(false), Some(false)),
    ];
    assert_eq!(
        MetaVote::next(&parent, &others, Some(false), 3),
        vote(3, Step::ForcedTrue, Some(false), None)
    );
    let awaiting = MetaVote::next(&parent, &others, None, 3);
    assert_eq!(awaiting, vote(3, Step::ForcedTrue, None, None));
    assert_eq!(MetaVote::next(&awaiting, &vec![], None, 3), awaiting);
    assert_eq!(
        MetaVote::next(&awaiting, &vec![], Some(true), 3),
        vote(3, Step::ForcedTrue, Some(true), None)
    );
}

#[test]
fn the_last_round_is_not_left() {
    let parent = vote(u32::MAX, Step::GenuineFlip, Some(true), Some(true));
    let others = vec![
        vote(u32::MAX, Step::GenuineFlip, Some(true), Some(true)),
        vote(u32::MAX, Step::GenuineFlip, Some(false), Some(false)),
    ];
    let stays = MetaVote::next(&parent, &others, Some(true), 3);
    assert_eq!(stays.round, u32::MAX);
    assert_eq!(stays.step, Step::GenuineFlip);
    assert_eq!(stays.estimates, BoolSet::single(true));
    assert_eq!(stays.bin_values, BoolSet { has_true: true, has_false: true });
    assert_eq!(stays.aux_value, Some(true));
    assert_eq!(stays.decision, None);
}

#[test]
fn a_decision_is_final_and_is_taken_over() {
    let done = decided(0, Step::GenuineFlip, true);
    let others = vec![decided(0, Step::GenuineFlip, false)];
    assert_eq!(MetaVote::next(&done, &others, Some(false), 3), done);
    let parent = vote(0, Step::GenuineFlip, Some(false), None);
    let others = vec![vote(0, Step::GenuineFlip, Some(false), None), done];
    assert_eq!(MetaVote::next(&parent, &others, None, 3), done);
    assert_eq!(MetaVote::first_decided(&others), Some(done));
    assert_eq!(MetaVote::first_decided(&vec![parent]), None);
}

#[test]
fn without_a_super_majority_of_values_a_vote_stays() {
    let parent = vote(0, Step::ForcedTrue, Some(true), Some(true));
    let others = vec![vote(0, Step::ForcedTrue, Some(true), Some(true))];
    assert_eq!(MetaVote::next(&parent, &others, None, 3), parent);
}
