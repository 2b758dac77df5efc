//! Meta-votes: the state of one binary agreement, held by one event about one
//! peer, and the rule by which an event derives its state from its
//! self-parent's and from the states that other creators hold.

use vstd::prelude::*;
use crate::peer_manager::{spec_is_at_least_one_third, spec_is_super_majority};
use crate::tally::count_below;

verus! {

/// A subset of `{true, false}`.
#[derive(Clone, Copy, Debug, PartialEq, Eq, Structural)]
pub struct BoolSet {
    pub has_true: bool,
    pub has_false: bool,
}

impl BoolSet {
    /// The empty set.
    pub open spec fn spec_empty() -> BoolSet {
        BoolSet { has_true: false, has_false: false }
    }

    /// The set that holds `value` alone.
    pub open spec fn spec_single(value: bool) -> BoolSet {
        BoolSet { has_true: value, has_false: !value }
    }

    /// `value` is in the set.
    pub open spec fn spec_contains(&self, value: bool) -> bool {
        if value {
            self.has_true
        } else {
            self.has_false
        }
    }

    /// The set holds nothing.
    pub open spec fn spec_is_empty(&self) -> bool {
        !self.has_true && !self.has_false
    }

    /// The empty set.
    pub fn empty() -> (s: BoolSet)
        ensures
            s == BoolSet::spec_empty(),
    {
        BoolSet { has_true: false, has_false: false }
    }

    /// The set that holds `value` alone.
    pub fn single(value: bool) -> (s: BoolSet)
        ensures
            s == BoolSet::spec_single(value),
    {
        BoolSet { has_true: value, has_false: !value }
    }

    /// Tells whether `value` is in the set.
    pub fn contains(&self, value: bool) -> (yes: bool)
        ensures
            yes == self.spec_contains(value),
    {
        if value {
            self.has_true
        } else {
            self.has_false
        }
    }

    /// Tells whether the set holds nothing.
    pub fn is_empty(&self) -> (yes: bool)
        ensures
            yes == self.spec_is_empty(),
    {
        !self.has_true && !self.has_false
    }
}

/// The three steps of a round.
#[derive(Clone, Copy, Debug, PartialEq, Eq, Structural)]
pub enum Step {
    /// A split vote is resolved towards `true`.
    ForcedTrue,
    /// A split vote is resolved towards `false`.
    ForcedFalse,
    /// A split vote is resolved by the common coin.
    GenuineFlip,
}

impl Step {
    /// The number of the step within its round: 0, 1 or 2.
    pub open spec fn spec_number(&self) -> nat {
        match self {
            Step::ForcedTrue => 0,
            Step::ForcedFalse => 1,
            Step::GenuineFlip => 2,
        }
    }

    /// The number of the step within its round.
    pub fn number(&self) -> (n: u8)
        ensures
            n == self.spec_number(),
    {
        match self {
            Step::ForcedTrue => 0,
            Step::ForcedFalse => 1,
            Step::GenuineFlip => 2,
        }
    }
}

/// The state of one binary agreement.
#[derive(Clone, Copy, Debug, PartialEq, Eq, Structural)]
pub struct MetaVote {
    pub round: u32,
    pub step: Step,
    /// The values currently proposed; empty while a coin toss is awaited.
    pub estimates: BoolSet,
    /// The values that at least a third of the peers were seen to propose.
    pub bin_values: BoolSet,
    /// The value put forward for the count that ends the step.
    pub aux_value: Option<bool>,
    /// The outcome; once set it never changes.
    pub decision: Option<bool>,
}

/// The number of votes that propose `value`: those among `others`, and `own`.
pub open spec fn spec_estimate_support(own: MetaVote, others: Seq<MetaVote>, value: bool) -> nat {
    count_below(others.len(), |i: int| others[i].estimates.spec_contains(value)) + if own.estimates.spec_contains(
        value,
    ) {
        1nat
    } else {
        0nat
    }
}

/// The number of votes that put `value` forward: those among `others`, and `own`.
pub open spec fn spec_aux_support(own: MetaVote, others: Seq<MetaVote>, value: bool) -> nat {
    count_below(others.len(), |i: int| others[i].aux_value == Some(value)) + if own.aux_value
        == Some(value) {
        1nat
    } else {
        0nat
    }
}

/// The first of `others` that holds a decision.
pub open spec fn spec_first_decided(others: Seq<MetaVote>) -> Option<MetaVote>
    decreases others.len(),
{
    if others.len() == 0 {
        None
    } else if others[0].decision.is_some() {
        Some(others[0])
    } else {
        spec_first_decided(others.subrange(1, others.len() as int))
    }
}

/// The value that a vote puts forward once `bin_values` holds something: the
/// value that the step favours where it is among them, else the other one.
/// The first step favours `true`, the second `false`, the third `true`.
pub open spec fn spec_choose_aux(step: Step, bin_values: BoolSet) -> Option<bool> {
    if bin_values.spec_is_empty() {
        None
    } else {
        match step {
            Step::ForcedFalse => Some(!bin_values.has_false),
            _ => Some(bin_values.has_true),
        }
    }
}

/// A vote at the same round and step as `at`, decided for `value`.
pub open spec fn spec_decided(at: MetaVote, value: bool) -> MetaVote {
    MetaVote {
        round: at.round,
        step: at.step,
        estimates: BoolSet::spec_single(value),
        bin_values: BoolSet::spec_single(value),
        aux_value: Some(value),
        decision: Some(value),
    }
}

/// A fresh vote at the given round and step that proposes `estimates`.
pub open spec fn spec_fresh(round: u32, step: Step, estimates: BoolSet) -> MetaVote {
    MetaVote {
        round,
        step,
        estimates,
        bin_values: BoolSet::spec_empty(),
        aux_value: None,
        decision: None,
    }
}

/// `parent` after it has taken note of `others`: `bin_values` gains each
/// value that at least a third of `total` propose, and a value is put forward
/// where none was and `bin_values` now holds one.
pub open spec fn spec_noted(parent: MetaVote, others: Seq<MetaVote>, total: nat) -> MetaVote {
    let bin_values = BoolSet {
        has_true: parent.bin_values.has_true || spec_is_at_least_one_third(
            spec_estimate_support(parent, others, true),
            total,
        ),
        has_false: parent.bin_values.has_false || spec_is_at_least_one_third(
            spec_estimate_support(parent, others, false),
            total,
        ),
    };
    let aux_value = if parent.aux_value.is_some() {
        parent.aux_value
    } else {
        spec_choose_aux(parent.step, bin_values)
    };
    MetaVote { bin_values, aux_value, ..parent }
}

/// Where `noted` goes once a super-majority of `total` has put a value
/// forward, `for_true` of them `true` and `for_false` of them `false`.
///
/// The first step hands `true` to the second unless a super-majority put
/// `false` forward; the second hands `false` to the third unless a
/// super-majority put `true` forward. The third decides for a value that a
/// super-majority put forward; else it opens the next round with the coin's
/// value, or with no estimate at all while the coin is still awaited. A vote
/// in the last round that a `u32` can number stays where it is.
pub open spec fn spec_advanced(
    noted: MetaVote,
    for_true: nat,
    for_false: nat,
    coin_toss: Option<bool>,
    total: nat,
) -> MetaVote {
    match noted.step {
        Step::ForcedTrue => spec_fresh(
            noted.round,
            Step::ForcedFalse,
            BoolSet::spec_single(!spec_is_super_majority(for_false, total)),
        ),
        Step::ForcedFalse => spec_fresh(
            noted.round,
            Step::GenuineFlip,
            BoolSet::spec_single(spec_is_super_majority(for_true, total)),
        ),
        Step::GenuineFlip => if spec_is_super_majority(for_true, total) {
            spec_decided(noted, true)
        } else if spec_is_super_majority(for_false, total) {
            spec_decided(noted, false)
        } else if noted.round == u32::MAX {
            noted
        } else {
            spec_fresh(
                (noted.round + 1) as u32,
                Step::ForcedTrue,
                match coin_toss {
                    Some(toss) => BoolSet::spec_single(toss),
                    None => BoolSet::spec_empty(),
                },
            )
        },
    }
}

/// The vote that an event derives from its self-parent's vote `parent`, the
/// votes `others` that other creators hold at the same round and step, the
/// coin toss where one is to be had, and the number of peers.
///
/// A decided vote stays as it is. An undecided one takes over the first
/// decision found among `others`. One that awaits a coin toss takes the
/// toss as its estimate, or stays. Any other takes note of `others`; where
/// it had put a value forward before and a super-majority has now done so,
/// it advances. So a vote never leaves a step in the event in which it puts
/// its value forward, and the other creators find that value on its chain.
pub open spec fn spec_next(
    parent: MetaVote,
    others: Seq<MetaVote>,
    coin_toss: Option<bool>,
    total: nat,
) -> MetaVote {
    if parent.decision.is_some() {
        parent
    } else if let Some(decided) = spec_first_decided(others) {
        MetaVote {
            estimates: decided.estimates,
            bin_values: decided.bin_values,
            aux_value: decided.aux_value,
            decision: decided.decision,
            ..parent
        }
    } else if parent.estimates.spec_is_empty() {
        match coin_toss {
            Some(toss) => MetaVote { estimates: BoolSet::spec_single(toss), ..parent },
            None => parent,
        }
    } else {
        let noted = spec_noted(parent, others, total);
        let for_true = spec_aux_support(noted, others, true);
        let for_false = spec_aux_support(noted, others, false);
        if parent.aux_value.is_some() && spec_is_super_majority(for_true + for_false, total) {
            spec_advanced(noted, for_true, for_false, coin_toss, total)
        } else {
            noted
        }
    }
}

/// The vote with which an event opens the agreement: round 0, first step,
/// proposing `initial_estimate`, after it has taken note of `others`.
pub open spec fn spec_new(initial_estimate: bool, others: Seq<MetaVote>, total: nat) -> MetaVote {
    spec_next(
        spec_fresh(0, Step::ForcedTrue, BoolSet::spec_single(initial_estimate)),
        others,
        None,
        total,
    )
}

/// A decision is final: a decided vote is its own successor, whatever the
/// other votes and the coin.
pub proof fn lemma_decision_is_final(
    parent: MetaVote,
    others: Seq<MetaVote>,
    coin_toss: Option<bool>,
    total: nat,
)
    requires
        parent.decision.is_some(),
    ensures
        spec_next(parent, others, coin_toss, total) == parent,
{
}

/// A vote that is not decided when it is derived stands at the round and
/// step of its predecessor, or it has advanced by one step; it never goes back.
pub proof fn lemma_votes_advance(
    parent: MetaVote,
    others: Seq<MetaVote>,
    coin_toss: Option<bool>,
    total: nat,
)
    ensures
        ({
            let next = spec_next(parent, others, coin_toss, total);
            ||| next.round == parent.round && next.step == parent.step
            ||| next.round == parent.round && next.step.spec_number() == parent.step.spec_number()
                + 1
            ||| next.round == parent.round + 1 && next.step == Step::ForcedTrue && parent.step
                == Step::GenuineFlip
        }),
{
}

/// How many of `others` propose `true` and `false`, and how many put `true`
/// and `false` forward.
pub struct Tally {
    pub estimates_true: usize,
    pub estimates_false: usize,
    pub aux_true: usize,
    pub aux_false: usize,
}

/// Counts, among `others`, the votes that propose each value and those that
/// put each value forward.
pub fn tally(others: &Vec<MetaVote>) -> (t: Tally)
    ensures
        t.estimates_true == count_below(
            others.len() as nat,
            |i: int| others@[i].estimates.spec_contains(true),
        ),
        t.estimates_false == count_below(
            others.len() as nat,
            |i: int| others@[i].estimates.spec_contains(false),
        ),
        t.aux_true == count_below(others.len() as nat, |i: int| others@[i].aux_value == Some(true)),
        t.aux_false == count_below(
            others.len() as nat,
            |i: int| others@[i].aux_value == Some(false),
        ),
{
    let mut t = Tally { estimates_true: 0, estimates_false: 0, aux_true: 0, aux_false: 0 };
    let mut i: usize = 0;
    while i < others.len()
        invariant
            i <= others.len(),
            t.estimates_true <= i,
            t.estimates_false <= i,
            t.aux_true <= i,
            t.aux_false <= i,
            t.estimates_true == count_below(
                i as nat,
                |i: int| others@[i].estimates.spec_contains(true),
            ),
            t.estimates_false == count_below(
                i as nat,
                |i: int| others@[i].estimates.spec_contains(false),
            ),
            t.aux_true == count_below(i as nat, |i: int| others@[i].aux_value == Some(true)),
            t.aux_false == count_below(i as nat, |i: int| others@[i].aux_value == Some(false)),
        decreases others.len() - i,
    {
        let v = others[i];
        if v.estimates.has_true {
            t.estimates_true += 1;
        }
        if v.estimates.has_false {
            t.estimates_false += 1;
        }
        match v.aux_value {
            Some(true) => {
                t.aux_true += 1;
            },
            Some(false) => {
                t.aux_false += 1;
            },
            None => {},
        }
        i += 1;
    }
    t
}

/// `count + 1` where `own` holds, else `count`, without overflow.
fn with_own(count: usize, own: bool) -> (n: u128)
    ensures
        n == count + if own {
            1nat
        } else {
            0nat
        },
{
    if own {
        count as u128 + 1
    } else {
        count as u128
    }
}

/// Tells whether `count` out of `total` is a super-majority.
fn super_majority(count: u128, total: usize) -> (yes: bool)
    requires
        count <= 2 * usize::MAX + 2,
    ensures
        yes == spec_is_super_majority(count as nat, total as nat),
{
    3 * count > 2 * (total as u128)
}

/// Tells whether `count` out of `total` is at least one third.
fn one_third(count: u128, total: usize) -> (yes: bool)
    requires
        count <= usize::MAX + 2,
    ensures
        yes == spec_is_at_least_one_third(count as nat, total as nat),
{
    3 * count >= (total as u128)
}

impl MetaVote {
    /// The first of `others` that holds a decision.
    pub fn first_decided(others: &Vec<MetaVote>) -> (found: Option<MetaVote>)
        ensures
            found == spec_first_decided(others@),
    {
        let mut i: usize = 0;
        proof {
            assert(others@.subrange(0, others.len() as int) =~= others@);
        }
        while i < others.len()
            invariant
                i <= others.len(),
                spec_first_decided(others@) == spec_first_decided(
                    others@.subrange(i as int, others.len() as int),
                ),
            decreases others.len() - i,
        {
            let ghost rest = others@.subrange(i as int, others.len() as int);
            proof {
                assert(rest[0] == others@[i as int]);
                assert(rest.subrange(1, rest.len() as int) =~= others@.subrange(
                    i + 1,
                    others.len() as int,
                ));
            }
            if others[i].decision.is_some() {
                return Some(others[i]);
            }
            i += 1;
        }
        proof {
            assert(others@.subrange(i as int, others.len() as int).len() == 0);
        }
        None
    }

    /// The vote with which an event opens the agreement.
    pub fn new(initial_estimate: bool, others: &Vec<MetaVote>, total_peers: usize) -> (v: MetaVote)
        ensures
            v == spec_new(initial_estimate, others@, total_peers as nat),
    {
        let fresh = MetaVote {
            round: 0,
            step: Step::ForcedTrue,
            estimates: BoolSet::single(initial_estimate),
            bin_values: BoolSet::empty(),
            aux_value: None,
            decision: None,
        };
        MetaVote::next(&fresh, others, None, total_peers)
    }

    /// `parent` after it has taken note of `others`, which hold the counts `t`.
    fn noted(parent: &MetaVote, others: &Vec<MetaVote>, t: &Tally, total_peers: usize) -> (v:
        MetaVote)
        requires
            t.estimates_true == count_below(
                others.len() as nat,
                |i: int| others@[i].estimates.spec_contains(true),
            ),
            t.estimates_false == count_below(
                others.len() as nat,
                |i: int| others@[i].estimates.spec_contains(false),
            ),
        ensures
            v == spec_noted(*parent, others@, total_peers as nat),
    {
        let bin_values = BoolSet {
            has_true: parent.bin_values.has_true || one_third(
                with_own(t.estimates_true, parent.estimates.has_true),
                total_peers,
            ),
            has_false: parent.bin_values.has_false || one_third(
                with_own(t.estimates_false, parent.estimates.has_false),
                total_peers,
            ),
        };
        let aux_value = if parent.aux_value.is_some() {
            parent.aux_value
        } else if bin_values.is_empty() {
            None
        } else {
            match parent.step {
                Step::ForcedFalse => Some(!bin_values.has_false),
                _ => Some(bin_values.has_true),
            }
        };
        MetaVote {
            round: parent.round,
            step: parent.step,
            estimates: parent.estimates,
            bin_values,
            aux_value,
            decision: parent.decision,
        }
    }

    /// Where `noted` goes once a super-majority has put a value forward.
    fn advanced(
        noted: &MetaVote,
        for_true: u128,
        for_false: u128,
        coin_toss: Option<bool>,
        total_peers: usize,
    ) -> (v: MetaVote)
        requires
            for_true <= usize::MAX + 1,
            for_false <= usize::MAX + 1,
        ensures
            v == spec_advanced(
                *noted,
                for_true as nat,
                for_false as nat,
                coin_toss,
                total_peers as nat,
            ),
    {
        match noted.step {
            Step::ForcedTrue => MetaVote {
                round: noted.round,
                step: Step::ForcedFalse,
                estimates: BoolSet::single(!super_majority(for_false, total_peers)),
                bin_values: BoolSet::empty(),
                aux_value: None,
                decision: None,
            },
            Step::ForcedFalse => MetaVote {
                round: noted.round,
                step: Step::GenuineFlip,
                estimates: BoolSet::single(super_majority(for_true, total_peers)),
                bin_values: BoolSet::empty(),
                aux_value: None,
                decision: None,
            },
            Step::GenuineFlip => {
                if super_majority(for_true, total_peers) {
                    MetaVote {
                        round: noted.round,
                        step: noted.step,
                        estimates: BoolSet::single(true),
                        bin_values: BoolSet::single(true),
                        aux_value: Some(true),
                        decision: Some(true),
                    }
                } else if super_majority(for_false, total_peers) {
                    MetaVote {
                        round: noted.round,
                        step: noted.step,
                        estimates: BoolSet::single(false),
                        bin_values: BoolSet::single(false),
                        aux_value: Some(false),
                        decision: Some(false),
                    }
                } else if noted.round == u32::MAX {
                    *noted
                } else {
                    MetaVote {
                        round: noted.round + 1,
                        step: Step::ForcedTrue,
                        estimates: match coin_toss {
                            Some(toss) => BoolSet::single(toss),
                            None => BoolSet::empty(),
                        },
                        bin_values: BoolSet::empty(),
                        aux_value: None,
                        decision: None,
                    }
                }
            },
        }
    }

    /// The vote that an event derives from its self-parent's vote.
    pub fn next(
        parent: &MetaVote,
        others: &Vec<MetaVote>,
        coin_toss: Option<bool>,
        total_peers: usize,
    ) -> (v: MetaVote)
        ensures
            v == spec_next(*parent, others@, coin_toss, total_peers as nat),
            parent.decision.is_some() ==> v == *parent,
    {
        if parent.decision.is_some() {
            return *parent;
        }
        if let Some(decided) = MetaVote::first_decided(others) {
            return MetaVote {
                round: parent.round,
                step: parent.step,
                estimates: decided.estimates,
                bin_values: decided.bin_values,
                aux_value: decided.aux_value,
                decision: decided.decision,
            };
        }
        if parent.estimates.is_empty() {
            return match coin_toss {
                Some(toss) => MetaVote {
                    round: parent.round,
                    step: parent.step,
                    estimates: BoolSet::single(toss),
                    bin_values: parent.bin_values,
                    aux_value: parent.aux_value,
                    decision: parent.decision,
                },
                None => *parent,
            };
        }
        let t = tally(others);
        let noted = MetaVote::noted(parent, others, &t, total_peers);
        let for_true = with_own(
            t.aux_true,
            match noted.aux_value {
                Some(true) => true,
                _ => false,
            },
        );
        let for_false = with_own(
            t.aux_false,
            match noted.aux_value {
                Some(false) => true,
                _ => false,
            },
        );
        proof {
            assert(for_true == spec_aux_support(noted, others@, true));
            assert(for_false == spec_aux_support(noted, others@, false));
        }
        if parent.aux_value.is_none() || !super_majority(for_true + for_false, total_peers) {
            return noted;
        }
        MetaVote::advanced(&noted, for_true, for_false, coin_toss, total_peers)
    }
}

} // verus!
