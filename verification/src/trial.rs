//! Counting how often each category occurs over repeated random draws.
use vstd::prelude::*;
use crate::card::Card;
use crate::deck::Deck;
use crate::hand::{satisfied_categories, PokerHand};
use crate::hand_set::PokerHandSet;
use crate::utils::statistics::{picked, valid_choices};

verus! {

/// For every category, the number of trials in which it was found.
pub type Frequencies = Map<PokerHand, nat>;

/// The frequencies before any trial: zero for every category.
pub open spec fn no_frequencies() -> Frequencies {
    Map::new(|h: PokerHand| true, |h: PokerHand| 0nat)
}

/// The frequencies of one trial in which `found` was found: one for every
/// category in `found`, zero for the others.
pub open spec fn frequencies_of(found: Set<PokerHand>) -> Frequencies {
    Map::new(|h: PokerHand| true, |h: PokerHand| if found.contains(h) { 1nat } else { 0nat })
}

/// The frequencies of two runs of trials taken together: their sum, category
/// by category.
pub open spec fn combined(a: Frequencies, b: Frequencies) -> Frequencies {
    Map::new(|h: PokerHand| true, |h: PokerHand| a[h] + b[h])
}

/// Taking two runs together gives the same whichever comes first.
pub proof fn lemma_combined_commutes(a: Frequencies, b: Frequencies)
    ensures
        combined(a, b) == combined(b, a),
{
    assert(combined(a, b) =~= combined(b, a));
}

/// Taking three runs together gives the same however they are grouped.
pub proof fn lemma_combined_associates(a: Frequencies, b: Frequencies, c: Frequencies)
    ensures
        combined(combined(a, b), c) == combined(a, combined(b, c)),
{
    assert(combined(combined(a, b), c) =~= combined(a, combined(b, c)));
}

/// A run without trials changes nothing when it is taken together with another.
pub proof fn lemma_combined_with_nothing(a: Frequencies)
    requires
        a.dom() == Set::<PokerHand>::full(),
    ensures
        combined(a, no_frequencies()) == a,
        combined(no_frequencies(), a) == a,
{
    assert(combined(a, no_frequencies()) =~= a);
    assert(combined(no_frequencies(), a) =~= a);
}

/// The outcome of a run of trials: how many there were, and in how many of
/// them each category was found.
#[derive(Clone, Copy, Debug, PartialEq, Eq)]
pub struct Tally {
    trials: u32,
    pair: u32,
    two_pair: u32,
    three_of_a_kind: u32,
    straight: u32,
    flush: u32,
    full_house: u32,
    four_of_a_kind: u32,
    straight_flush: u32,
    royal_flush: u32,
    flush_house: u32,
    five_of_a_kind: u32,
    flush_five: u32,
}

impl View for Tally {
    type V = Frequencies;

    /// The frequencies, category by category.
    open spec fn view(&self) -> Frequencies {
        Map::new(|h: PokerHand| true, |h: PokerHand| self.frequency(h))
    }
}

impl Tally {
    /// The number of trials counted.
    pub closed spec fn trial_count(self) -> nat {
        self.trials as nat
    }

    /// The number of trials in which `h` was found.
    pub closed spec fn frequency(self, h: PokerHand) -> nat {
        match h {
            PokerHand::Pair => self.pair as nat,
            PokerHand::TwoPair => self.two_pair as nat,
            PokerHand::ThreeOfAKind => self.three_of_a_kind as nat,
            PokerHand::Straight => self.straight as nat,
            PokerHand::Flush => self.flush as nat,
            PokerHand::FullHouse => self.full_house as nat,
            PokerHand::FourOfAKind => self.four_of_a_kind as nat,
            PokerHand::StraightFlush => self.straight_flush as nat,
            PokerHand::RoyalFlush => self.royal_flush as nat,
            PokerHand::FlushHouse => self.flush_house as nat,
            PokerHand::FiveOfAKind => self.five_of_a_kind as nat,
            PokerHand::FlushFive => self.flush_five as nat,
        }
    }

    /// No category was found more often than there were trials.
    #[verifier::type_invariant]
    spec fn well_formed(self) -> bool {
        forall|h: PokerHand| #[trigger] self.frequency(h) <= self.trials
    }

    /// The tally before any trial.
    pub fn new() -> (tally: Tally)
        ensures
            tally.trial_count() == 0,
            tally@ == no_frequencies(),
    {
        let tally = Tally {
            trials: 0,
            pair: 0,
            two_pair: 0,
            three_of_a_kind: 0,
            straight: 0,
            flush: 0,
            full_house: 0,
            four_of_a_kind: 0,
            straight_flush: 0,
            royal_flush: 0,
            flush_house: 0,
            five_of_a_kind: 0,
            flush_five: 0,
        };
        assert(tally@ =~= no_frequencies());
        tally
    }

    /// The number of trials counted.
    pub fn trials(&self) -> (n: u32)
        ensures
            n == self.trial_count(),
    {
        self.trials
    }

    /// The number of trials in which `h` was found; it is no more than the
    /// number of trials.
    pub fn count(&self, h: PokerHand) -> (n: u32)
        ensures
            n == self.frequency(h),
            n == self@[h],
            n <= self.trial_count(),
    {
        proof {
            use_type_invariant(self);
            assert(self.frequency(h) <= self.trials);
        }
        match h {
            PokerHand::Pair => self.pair,
            PokerHand::TwoPair => self.two_pair,
            PokerHand::ThreeOfAKind => self.three_of_a_kind,
            PokerHand::Straight => self.straight,
            PokerHand::Flush => self.flush,
            PokerHand::FullHouse => self.full_house,
            PokerHand::FourOfAKind => self.four_of_a_kind,
            PokerHand::StraightFlush => self.straight_flush,
            PokerHand::RoyalFlush => self.royal_flush,
            PokerHand::FlushHouse => self.flush_house,
            PokerHand::FiveOfAKind => self.five_of_a_kind,
            PokerHand::FlushFive => self.flush_five,
        }
    }

    /// Counts one more trial, in which the categories of `found` were found.
    pub fn record(&mut self, found: &PokerHandSet)
        requires
            old(self).trial_count() < u32::MAX,
        ensures
            final(self).trial_count() == old(self).trial_count() + 1,
            final(self)@ == combined(old(self)@, frequencies_of(found@)),
    {
        let after = self.with_one_more(found);
        proof {
            lemma_recorded(*self, after, *found);
        }
        *self = after;
    }

    /// The tally with one more trial, in which the categories of `found` were
    /// found.
    fn with_one_more(&self, found: &PokerHandSet) -> (after: Tally)
        requires
            self.trial_count() < u32::MAX,
        ensures
            after.trial_count() == self.trial_count() + 1,
            forall|h: PokerHand| #[trigger]
                after.frequency(h) == self.frequency(h) + if found.has(h) {
                    1nat
                } else {
                    0nat
                },
    {
        proof {
            use_type_invariant(self);
        }
        assert(self.frequency(PokerHand::Pair) <= self.trials);
        assert(self.frequency(PokerHand::TwoPair) <= self.trials);
        assert(self.frequency(PokerHand::ThreeOfAKind) <= self.trials);
        assert(self.frequency(PokerHand::Straight) <= self.trials);
        assert(self.frequency(PokerHand::Flush) <= self.trials);
        assert(self.frequency(PokerHand::FullHouse) <= self.trials);
        assert(self.frequency(PokerHand::FourOfAKind) <= self.trials);
        assert(self.frequency(PokerHand::StraightFlush) <= self.trials);
        assert(self.frequency(PokerHand::RoyalFlush) <= self.trials);
        assert(self.frequency(PokerHand::FlushHouse) <= self.trials);
        assert(self.frequency(PokerHand::FiveOfAKind) <= self.trials);
        assert(self.frequency(PokerHand::FlushFive) <= self.trials);
        let trials = self.trials + 1;
        let pair = raised(self.pair, found.pair);
        let two_pair = raised(self.two_pair, found.two_pair);
        let three_of_a_kind = raised(self.three_of_a_kind, found.three_of_a_kind);
        let straight = raised(self.straight, found.straight);
        let flush = raised(self.flush, found.flush);
        let full_house = raised(self.full_house, found.full_house);
        let four_of_a_kind = raised(self.four_of_a_kind, found.four_of_a_kind);
        let straight_flush = raised(self.straight_flush, found.straight_flush);
        let royal_flush = raised(self.royal_flush, found.royal_flush);
        let flush_house = raised(self.flush_house, found.flush_house);
        let five_of_a_kind = raised(self.five_of_a_kind, found.five_of_a_kind);
        let flush_five = raised(self.flush_five, found.flush_five);
        Tally {
            trials,
            pair,
            two_pair,
            three_of_a_kind,
            straight,
            flush,
            full_house,
            four_of_a_kind,
            straight_flush,
            royal_flush,
            flush_house,
            five_of_a_kind,
            flush_five,
        }
    }

    /// Takes in the trials of another run.
    pub fn merge(&mut self, other: &Tally)
        requires
            old(self).trial_count() + other.trial_count() <= u32::MAX,
        ensures
            final(self).trial_count() == old(self).trial_count() + other.trial_count(),
            final(self)@ == combined(old(self)@, other@),
    {
        proof {
            use_type_invariant(&*self);
            use_type_invariant(other);
        }
        assert(self.frequency(PokerHand::Pair) <= self.trials);
        assert(self.frequency(PokerHand::TwoPair) <= self.trials);
        assert(self.frequency(PokerHand::ThreeOfAKind) <= self.trials);
        assert(self.frequency(PokerHand::Straight) <= self.trials);
        assert(self.frequency(PokerHand::Flush) <= self.trials);
        assert(self.frequency(PokerHand::FullHouse) <= self.trials);
        assert(self.frequency(PokerHand::FourOfAKind) <= self.trials);
        assert(self.frequency(PokerHand::StraightFlush) <= self.trials);
        assert(self.frequency(PokerHand::RoyalFlush) <= self.trials);
        assert(self.frequency(PokerHand::FlushHouse) <= self.trials);
        assert(self.frequency(PokerHand::FiveOfAKind) <= self.trials);
        assert(self.frequency(PokerHand::FlushFive) <= self.trials);
        assert(other.frequency(PokerHand::Pair) <= other.trials);
        assert(other.frequency(PokerHand::TwoPair) <= other.trials);
        assert(other.frequency(PokerHand::ThreeOfAKind) <= other.trials);
        assert(other.frequency(PokerHand::Straight) <= other.trials);
        assert(other.frequency(PokerHand::Flush) <= other.trials);
        assert(other.frequency(PokerHand::FullHouse) <= other.trials);
        assert(other.frequency(PokerHand::FourOfAKind) <= other.trials);
        assert(other.frequency(PokerHand::StraightFlush) <= other.trials);
        assert(other.frequency(PokerHand::RoyalFlush) <= other.trials);
        assert(other.frequency(PokerHand::FlushHouse) <= other.trials);
        assert(other.frequency(PokerHand::FiveOfAKind) <= other.trials);
        assert(other.frequency(PokerHand::FlushFive) <= other.trials);
        let trials = self.trials + other.trials;
        let pair = self.pair + other.pair;
        let two_pair = self.two_pair + other.two_pair;
        let three_of_a_kind = self.three_of_a_kind + other.three_of_a_kind;
        let straight = self.straight + other.straight;
        let flush = self.flush + other.flush;
        let full_house = self.full_house + other.full_house;
        let four_of_a_kind = self.four_of_a_kind + other.four_of_a_kind;
        let straight_flush = self.straight_flush + other.straight_flush;
        let royal_flush = self.royal_flush + other.royal_flush;
        let flush_house = self.flush_house + other.flush_house;
        let five_of_a_kind = self.five_of_a_kind + other.five_of_a_kind;
        let flush_five = self.flush_five + other.flush_five;
        let sum = Tally {
            trials,
            pair,
            two_pair,
            three_of_a_kind,
            straight,
            flush,
            full_house,
            four_of_a_kind,
            straight_flush,
            royal_flush,
            flush_house,
            five_of_a_kind,
            flush_five,
        };
        proof {
            lemma_merged(*self, *other, sum);
        }
        *self = sum;
    }
}

/// A tally whose every count is one higher than another's for the categories
/// of `found`, and the same for the others, has that tally's frequencies
/// combined with those of one trial.
proof fn lemma_recorded(before: Tally, after: Tally, found: PokerHandSet)
    requires
        forall|h: PokerHand| #[trigger]
            after.frequency(h) == before.frequency(h) + if found.has(h) {
                1nat
            } else {
                0nat
            },
    ensures
        after@ == combined(before@, frequencies_of(found@)),
{
    assert(after@ =~= combined(before@, frequencies_of(found@)));
}

/// A tally whose every count is the sum of two others' has their frequencies
/// combined.
proof fn lemma_merged(a: Tally, b: Tally, sum: Tally)
    requires
        forall|h: PokerHand| #[trigger] sum.frequency(h) == a.frequency(h) + b.frequency(h),
    ensures
        sum@ == combined(a@, b@),
{
    assert(sum@ =~= combined(a@, b@));
}

/// `count`, raised by one where `hit` holds.
fn raised(count: u32, hit: bool) -> (r: u32)
    requires
        count < u32::MAX,
    ensures
        count <= r <= count + 1,
        r == count + if hit {
            1nat
        } else {
            0nat
        },
{
    if hit {
        count + 1
    } else {
        count
    }
}

/// The outcome of one trial on `deck`: the categories of some hand of
/// `hand_size` cards drawn from different positions of the deck.
pub open spec fn trial_outcome(deck: Seq<Card>, hand_size: nat, found: PokerHandSet) -> bool {
    exists|choices: Seq<usize>|
        valid_choices(choices, deck.len()) && choices.len() == hand_size && found
            == satisfied_categories(#[trigger] picked(deck, choices))
}

/// Draws one hand of `hand_size` cards from `deck` at random and finds its
/// categories. The deck stays as it is.
pub fn run_trial(deck: &Deck, hand_size: u8) -> (found: PokerHandSet)
    requires
        hand_size <= deck@.len(),
    ensures
        trial_outcome(deck@, hand_size as nat, found),
{
    let mut hand = deck.draw_hand(hand_size);
    hand.evaluate_poker_hands()
}

/// The frequencies of a run of trials with the given outcomes.
pub open spec fn tallied(outcomes: Seq<PokerHandSet>) -> Frequencies
    decreases outcomes.len(),
{
    if outcomes.len() == 0 {
        no_frequencies()
    } else {
        combined(tallied(outcomes.drop_last()), frequencies_of(outcomes.last()@))
    }
}

/// The frequencies of `trials` trials on `deck`: those of some outcomes, one
/// for each trial.
pub open spec fn trials_outcome(
    deck: Seq<Card>,
    hand_size: nat,
    trials: nat,
    frequencies: Frequencies,
) -> bool {
    exists|outcomes: Seq<PokerHandSet>|
        {
            &&& outcomes.len() == trials
            &&& forall|i: int|
                0 <= i < outcomes.len() ==> trial_outcome(deck, hand_size, #[trigger] outcomes[i])
            &&& frequencies == #[trigger] tallied(outcomes)
        }
}

/// Runs `trials` trials on `deck`, each with a hand of `hand_size` cards, and
/// counts for every category the trials in which it was found.
pub fn draw_trial(deck: &Deck, hand_size: u8, trials: u32) -> (tally: Tally)
    requires
        hand_size <= deck@.len(),
    ensures
        tally.trial_count() == trials,
        trials_outcome(deck@, hand_size as nat, trials as nat, tally@),
        forall|h: PokerHand| #[trigger] tally@[h] <= trials,
{
    let mut tally = Tally::new();
    let mut t: u32 = 0;
    let ghost mut outcomes: Seq<PokerHandSet> = Seq::empty();
    while t < trials
        invariant
            t <= trials,
            tally.trial_count() == t,
            hand_size <= deck@.len(),
            outcomes.len() == t,
            forall|i: int|
                0 <= i < outcomes.len() ==> trial_outcome(
                    deck@,
                    hand_size as nat,
                    #[trigger] outcomes[i],
                ),
            tally@ == tallied(outcomes),
        decreases trials - t,
    {
        let found = run_trial(deck, hand_size);
        tally.record(&found);
        proof {
            assert(outcomes.push(found).drop_last() =~= outcomes);
            outcomes = outcomes.push(found);
        }
        t += 1;
    }
    proof {
        use_type_invariant(&tally);
    }
    assert forall|h: PokerHand| #[trigger] tally@[h] <= trials by {
        assert(tally.frequency(h) <= tally.trials);
    }
    tally
}

} // verus!
