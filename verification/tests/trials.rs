use poker_hands::card::{Card, Rank, Suit};
use poker_hands::deck::Deck;
use poker_hands::hand::PokerHand;
use poker_hands::hand_set::PokerHandSet;
use poker_hands::trial::{draw_trial, run_trial, Tally};

const ALL: [PokerHand; 12] = [
    PokerHand::Pair,
    PokerHand::TwoPair,
    PokerHand::ThreeOfAKind,
    PokerHand::Straight,
    PokerHand::Flush,
    PokerHand::FullHouse,
    PokerHand::FourOfAKind,
    PokerHand::StraightFlush,
    PokerHand::RoyalFlush,
    PokerHand::FlushHouse,
    PokerHand::FiveOfAKind,
    PokerHand::FlushFive,
];

fn set_of(hands: &[PokerHand]) -> PokerHandSet {
    let mut set = PokerHandSet::new();
    for h in hands {
        set.insert(*h);
    }
    set
}

#[test]
fn a_new_tally_counts_nothing() {
    let tally = Tally::new();
    assert_eq!(tally.trials(), 0);
    for h in ALL {
        assert_eq!(tally.count(h), 0);
    }
}

#[test]
fn record_counts_each_category_found_once() {
    let mut tally = Tally::new();
    tally.record(&set_of(&[PokerHand::Pair, PokerHand::Flush]));
    tally.record(&set_of(&[PokerHand::Pair]));
    tally.record(&set_of(&[]));
    assert_eq!(tally.trials(), 3);
    assert_eq!(tally.count(PokerHand::Pair), 2);
    assert_eq!(tally.count(PokerHand::Flush), 1);
    assert_eq!(tally.count(PokerHand::Straight), 0);
    tally.record(&set_of(&ALL));
    assert_eq!(tally.trials(), 4);
    for h in ALL {
        let before = if h == PokerHand::Pair {
            2
        } else if h == PokerHand::Flush {
            1
        } else {
            0
        };
        assert_eq!(tally.count(h), before + 1);
    }
}

#[test]
fn merge_adds_category_by_category() {
    let mut a = Tally::new();
    a.record(&set_of(&[PokerHand::Pair, PokerHand::TwoPair]));
    a.record(&set_of(&[PokerHand::Pair]));
    let mut b = Tally::new();
    b.record(&set_of(&[PokerHand::Pair, PokerHand::FlushFive]));
    let mut ab = a;
    ab.merge(&b);
    assert_eq!(ab.trials(), 3);
    assert_eq!(ab.count(PokerHand::Pair), 3);
    assert_eq!(ab.count(PokerHand::TwoPair), 1);
    assert_eq!(ab.count(PokerHand::FlushFive), 1);
    assert_eq!(ab.count(PokerHand::Flush), 0);
    let mut ba = b;
    ba.merge(&a);
    assert_eq!(ab, ba);
    let mut with_nothing = a;
    with_nothing.merge(&Tally::new());
    assert_eq!(with_nothing, a);
}

#[test]
fn merge_gives_the_same_however_the_runs_are_grouped() {
    let mut a = Tally::new();
    a.record(&set_of(&[PokerHand::Straight]));
    let mut b = Tally::new();
    b.record(&set_of(&[PokerHand::Straight, PokerHand::Flush]));
    let mut c = Tally::new();
    c.record(&set_of(&[PokerHand::Flush]));
    c.record(&set_of(&[PokerHand::FullHouse]));
    let mut left = a;
    left.merge(&b);
    left.merge(&c);
    let mut bc = b;
    bc.merge(&c);
    let mut right = a;
    right.merge(&bc);
    assert_eq!(left, right);
    assert_eq!(left.trials(), 4);
    assert_eq!(left.count(PokerHand::Straight), 2);
    assert_eq!(left.count(PokerHand::Flush), 2);
    assert_eq!(left.count(PokerHand::FullHouse), 1);
}

#[test]
fn trials_on_the_standard_deck_stay_within_their_number() {
    let deck = Deck::new();
    let trials = 300u32;
    let tally = draw_trial(&deck, 5, trials);
    assert_eq!(tally.trials(), trials);
    for h in ALL {
        assert!(tally.count(h) <= trials);
        let probability = tally.count(h) as f64 / trials as f64;
        assert!((0.0..=1.0).contains(&probability));
    }
    assert_eq!(tally.count(PokerHand::FiveOfAKind), 0);
    assert_eq!(tally.count(PokerHand::FlushFive), 0);
    assert_eq!(tally.count(PokerHand::FlushHouse), 0);
    assert_eq!(tally.count(PokerHand::RoyalFlush), 0);
    assert!(tally.count(PokerHand::Pair) > 0);
}

#[test]
fn no_trials_count_nothing() {
    let tally = draw_trial(&Deck::new(), 5, 0);
    assert_eq!(tally, Tally::new());
}

#[test]
fn trials_on_a_deck_of_wild_aces_find_the_same_in_every_trial() {
    let deck = Deck::from(vec![Card { rank: Rank::Ace, suit: Suit::Wild }; 10]);
    let tally = draw_trial(&deck, 5, 40);
    assert_eq!(tally.trials(), 40);
    for h in ALL {
        let expected = match h {
            PokerHand::Pair
            | PokerHand::ThreeOfAKind
            | PokerHand::FourOfAKind
            | PokerHand::FlushFive => 40,
            _ => 0,
        };
        assert_eq!(tally.count(h), expected, "{:?}", h);
    }
}

#[test]
fn trials_with_hands_of_one_card_find_nothing() {
    let tally = draw_trial(&Deck::new(), 1, 50);
    assert_eq!(tally.trials(), 50);
    for h in ALL {
        assert_eq!(tally.count(h), 0);
    }
}

#[test]
fn one_trial_on_the_whole_standard_deck_finds_what_the_deck_holds() {
    let found = run_trial(&Deck::new(), 52);
    assert_eq!(
        found,
        set_of(&[
            PokerHand::Pair,
            PokerHand::TwoPair,
            PokerHand::ThreeOfAKind,
            PokerHand::FourOfAKind,
            PokerHand::FullHouse,
            PokerHand::StraightFlush,
            PokerHand::Straight,
        ])
    );
}
