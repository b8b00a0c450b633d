use poker_hands::card::{Card, Rank, Suit};
use poker_hands::hand::{Hand, PokerHand};
use poker_hands::hand_set::PokerHandSet;

const ALL: [PokerHand; 12] = [
    PokerHand::Pair,
    PokerHand::TwoPair,
    PokerHand::ThreeOfAKind,
    PokerHand::Straight,
    PokerHand::Flush,
    PokerHand::FullHouse,
    PokerHand::FourOfAKind,
    PokerHand::StraightFlush,
    PokerHand::RoyalFlush,
    PokerHand::FlushHouse,
    PokerHand::FiveOfAKind,
    PokerHand::FlushFive,
];

fn card(rank: Rank, suit: Suit) -> Card {
    Card { rank, suit }
}

fn assert_expected_results(results: &PokerHandSet, expected: &[PokerHand]) {
    for key in ALL.iter() {
        if results.contains(*key) {
            println!("Checking {:?}... expected: {}", key, expected.contains(key));
            if !expected.contains(key) {
                panic!("Unexpected key: {:?}", key);
            }
        }
    }
    for key in expected.iter() {
        assert!(results.contains(*key), "Expected {:?} to be found", key);
    }
}

fn test_hand_correctness(cards: Vec<Card>, expected: &[PokerHand]) {
    let mut hand = Hand::from(cards);
    let results = hand.evaluate_poker_hands();
    assert_expected_results(&results, expected);
}

#[test]
fn hand_it_evaluates_hand_correctly_1() {
    let cards = vec![
        card(Rank::Two, Suit::Clubs),
        card(Rank::Five, Suit::Clubs),
        card(Rank::Three, Suit::Clubs),
        card(Rank::Four, Suit::Wild),
        card(Rank::Eight, Suit::Diamonds),
        card(Rank::Eight, Suit::Diamonds),
        card(Rank::Eight, Suit::Clubs),
        card(Rank::Ace, Suit::Wild),
        card(Rank::Ace, Suit::Diamonds),
    ];
    let expected = [
        PokerHand::Pair,
        PokerHand::TwoPair,
        PokerHand::ThreeOfAKind,
        PokerHand::Flush,
        PokerHand::Straight,
        PokerHand::FullHouse,
        PokerHand::StraightFlush,
    ];
    test_hand_correctness(cards, &expected);
}

#[test]
fn hand_it_evaluates_hand_correctly_2() {
    let cards = vec![
        card(Rank::Two, Suit::Clubs),
        card(Rank::Five, Suit::Clubs),
        card(Rank::Three, Suit::Clubs),
        card(Rank::Four, Suit::Hearts),
        card(Rank::Eight, Suit::Diamonds),
        card(Rank::Eight, Suit::Diamonds),
        card(Rank::Eight, Suit::Clubs),
        card(Rank::Ace, Suit::Wild),
        card(Rank::Ace, Suit::Diamonds),
    ];
    let expected = [
        PokerHand::Pair,
        PokerHand::TwoPair,
        PokerHand::ThreeOfAKind,
        PokerHand::Flush,
        PokerHand::Straight,
        PokerHand::FullHouse,
    ];
    test_hand_correctness(cards, &expected);
}

#[test]
fn hand_it_evaluates_hand_correctly_3() {
    let cards = vec![
        card(Rank::Two, Suit::Clubs),
        card(Rank::Five, Suit::Clubs),
        card(Rank::Three, Suit::Clubs),
        card(Rank::Four, Suit::Clubs),
        card(Rank::Four, Suit::Hearts),
        card(Rank::Ace, Suit::Diamonds),
    ];
    let expected = [
        PokerHand::Pair,
        PokerHand::Straight,
    ];
    test_hand_correctness(cards, &expected);
}

#[test]
fn hand_it_evaluates_hand_correctly_4() {
    let cards = vec![
        card(Rank::Two, Suit::Clubs),
        card(Rank::Five, Suit::Diamonds),
        card(Rank::Three, Suit::Diamonds),
        card(Rank::Four, Suit::Diamonds),
        card(Rank::Ace, Suit::Diamonds),
    ];
    let expected = [
        PokerHand::Straight,
    ];
    test_hand_correctness(cards, &expected);
}

#[test]
fn hand_it_evaluates_5_wild_flush_five() {
    let cards = vec![
        card(Rank::Two, Suit::Wild),
        card(Rank::Two, Suit::Wild),
        card(Rank::Two, Suit::Wild),
        card(Rank::Two, Suit::Wild),
        card(Rank::Two, Suit::Wild),
    ];
    let expected = [
        PokerHand::FlushFive,
        PokerHand::FourOfAKind,
        PokerHand::ThreeOfAKind,
        PokerHand::Pair,
    ];
    test_hand_correctness(cards, &expected);
}

#[test]
fn hand_it_evalutes_flush_house() {
    let cards = vec![
        card(Rank::Two, Suit::Wild),
        card(Rank::Two, Suit::Wild),
        card(Rank::Three, Suit::Clubs),
        card(Rank::Three, Suit::Wild),
        card(Rank::Three, Suit::Wild),
        card(Rank::Ace, Suit::Clubs),
    ];
    let expected = [
        PokerHand::FlushHouse,
        PokerHand::ThreeOfAKind,
        PokerHand::TwoPair,
        PokerHand::Pair,
        PokerHand::FullHouse,
        PokerHand::Flush,
    ];
    test_hand_correctness(cards, &expected);
}

#[test]
fn hand_test_simple_flush() {
    let cards = vec![
        card(Rank::Two, Suit::Hearts),
        card(Rank::Three, Suit::Hearts),
        card(Rank::Five, Suit::Hearts),
        card(Rank::Seven, Suit::Hearts),
        card(Rank::Nine, Suit::Hearts),
    ];
    let expected = [
        PokerHand::Flush,
    ];
    test_hand_correctness(cards, &expected);
}

#[test]
fn hand_test_simple_straight() {
    let cards = vec![
        card(Rank::Ten, Suit::Clubs),
        card(Rank::Jack, Suit::Diamonds),
        card(Rank::Queen, Suit::Hearts),
        card(Rank::King, Suit::Spades),
        card(Rank::Ace, Suit::Wild),
    ];
    let expected = [
        PokerHand::Straight,
    ];
    test_hand_correctness(cards, &expected);
}

#[test]
fn hand_test_with_multiple_wild_cards_forming_straight_flush() {
    let cards = vec![
        card(Rank::Six, Suit::Wild),
        card(Rank::Seven, Suit::Wild),
        card(Rank::Eight, Suit::Clubs),
        card(Rank::Eight, Suit::Clubs),
        card(Rank::Nine, Suit::Clubs),
        card(Rank::Ten, Suit::Clubs),
    ];
    let expected = [
        PokerHand::StraightFlush,
        PokerHand::Flush,
        PokerHand::Pair,
    ];
    test_hand_correctness(cards, &expected);
}

#[test]
fn test_for_natural_full_house_vs_wild_full_house() {
    let cards = vec![
        card(Rank::Jack, Suit::Diamonds),
        card(Rank::Jack, Suit::Spades),
        card(Rank::Jack, Suit::Clubs),
        card(Rank::Nine, Suit::Hearts),
        card(Rank::Nine, Suit::Wild),
    ];
    let expected = [
        PokerHand::FullHouse,
        PokerHand::Pair,
        PokerHand::ThreeOfAKind,
        PokerHand::TwoPair,
    ];
    test_hand_correctness(cards, &expected);
}

#[test]
fn test_it_evaluates_hand_correctly_1() {
    let cards = vec![
        card(Rank::Two, Suit::Clubs),
        card(Rank::Five, Suit::Clubs),
        card(Rank::Three, Suit::Clubs),
        card(Rank::Four, Suit::Wild),
        card(Rank::Eight, Suit::Diamonds),
        card(Rank::Eight, Suit::Diamonds),
        card(Rank::Eight, Suit::Clubs),
        card(Rank::Ace, Suit::Wild),
        card(Rank::Ace, Suit::Diamonds),
    ];
    let expected = [
        PokerHand::Pair,
        PokerHand::TwoPair,
        PokerHand::ThreeOfAKind,
        PokerHand::Flush,
        PokerHand::Straight,
        PokerHand::FullHouse,
        PokerHand::StraightFlush,
    ];
    test_hand_correctness(cards, &expected);
}

#[test]
fn test_it_evaluates_hand_correctly_2() {
    let cards = vec![
        card(Rank::Two, Suit::Clubs),
        card(Rank::Five, Suit::Clubs),
        card(Rank::Three, Suit::Clubs),
        card(Rank::Four, Suit::Hearts),
        card(Rank::Eight, Suit::Diamonds),
        card(Rank::Eight, Suit::Diamonds),
        card(Rank::Eight, Suit::Clubs),
        card(Rank::Ace, Suit::Wild),
        card(Rank::Ace, Suit::Diamonds),
    ];
    let expected = [
        PokerHand::Pair,
        PokerHand::TwoPair,
        PokerHand::ThreeOfAKind,
        PokerHand::Flush,
        PokerHand::Straight,
        PokerHand::FullHouse,
    ];
    test_hand_correctness(cards, &expected);
}

#[test]
fn test_it_evaluates_hand_correctly_3() {
    let cards = vec![
        card(Rank::Two, Suit::Clubs),
        card(Rank::Five, Suit::Clubs),
        card(Rank::Three, Suit::Clubs),
        card(Rank::Four, Suit::Clubs),
        card(Rank::Four, Suit::Hearts),
        card(Rank::Ace, Suit::Diamonds),
    ];
    let expected = [
        PokerHand::Pair,
        PokerHand::Straight,
    ];
    test_hand_correctness(cards, &expected);
}

#[test]
fn test_it_evaluates_hand_correctly_4() {
    let cards = vec![
        card(Rank::Two, Suit::Clubs),
        card(Rank::Five, Suit::Diamonds),
        card(Rank::Three, Suit::Diamonds),
        card(Rank::Four, Suit::Diamonds),
        card(Rank::Ace, Suit::Diamonds),
    ];
    let expected = [
        PokerHand::Straight,
    ];
    test_hand_correctness(cards, &expected);
}

#[test]
fn test_it_evaluates_5_wild_flush_five() {
    let cards = vec![
        card(Rank::Two, Suit::Wild),
        card(Rank::Two, Suit::Wild),
        card(Rank::Two, Suit::Wild),
        card(Rank::Two, Suit::Wild),
        card(Rank::Two, Suit::Wild),
    ];
    let expected = [
        PokerHand::FlushFive,
        PokerHand::FourOfAKind,
        PokerHand::ThreeOfAKind,
        PokerHand::Pair,
    ];
    test_hand_correctness(cards, &expected);
}

#[test]
fn it_evaluates_5_of_a_kind_with_wilds() {
    let cards = vec![
        card(Rank::Two, Suit::Wild),
        card(Rank::Two, Suit::Clubs),
        card(Rank::Two, Suit::Hearts),
        card(Rank::Two, Suit::Wild),
        card(Rank::Two, Suit::Wild),
    ];
    let expected = [
        PokerHand::FiveOfAKind,
        PokerHand::FourOfAKind,
        PokerHand::ThreeOfAKind,
        PokerHand::Pair,
    ];
    test_hand_correctness(cards, &expected);
}

#[test]
fn it_evaluates_5_of_a_kind_and_flush_five_with_wilds() {
    let cards = vec![
        card(Rank::Two, Suit::Wild),
        card(Rank::Two, Suit::Clubs),
        card(Rank::Two, Suit::Hearts),
        card(Rank::Two, Suit::Wild),
        card(Rank::Two, Suit::Wild),
        card(Rank::Two, Suit::Wild),
    ];
    let expected = [
        PokerHand::FlushFive,
        PokerHand::FiveOfAKind,
        PokerHand::FourOfAKind,
        PokerHand::ThreeOfAKind,
        PokerHand::Pair,
    ];
    test_hand_correctness(cards, &expected);
}

#[test]
fn test_it_evalutes_flush_house() {
    let cards = vec![
        card(Rank::Two, Suit::Wild),
        card(Rank::Two, Suit::Wild),
        card(Rank::Three, Suit::Clubs),
        card(Rank::Three, Suit::Wild),
        card(Rank::Three, Suit::Wild),
        card(Rank::Ace, Suit::Clubs),
    ];
    let expected = [
        PokerHand::FlushHouse,
        PokerHand::ThreeOfAKind,
        PokerHand::TwoPair,
        PokerHand::Pair,
        PokerHand::FullHouse,
        PokerHand::Flush,
    ];
    test_hand_correctness(cards, &expected);
}

#[test]
fn test_test_simple_flush() {
    let cards = vec![
        card(Rank::Two, Suit::Hearts),
        card(Rank::Three, Suit::Hearts),
        card(Rank::Five, Suit::Hearts),
        card(Rank::Seven, Suit::Hearts),
        card(Rank::Nine, Suit::Hearts),
    ];
    let expected = [
        PokerHand::Flush,
    ];
    test_hand_correctness(cards, &expected);
}

#[test]
fn test_test_simple_straight() {
    let cards = vec![
        card(Rank::Ten, Suit::Clubs),
        card(Rank::Jack, Suit::Diamonds),
        card(Rank::Queen, Suit::Hearts),
        card(Rank::King, Suit::Spades),
        card(Rank::Ace, Suit::Wild),
    ];
    let expected = [
        PokerHand::Straight,
    ];
    test_hand_correctness(cards, &expected);
}

#[test]
fn test_test_with_multiple_wild_cards_forming_straight_flush() {
    let cards = vec![
        card(Rank::Six, Suit::Wild),
        card(Rank::Seven, Suit::Wild),
        card(Rank::Eight, Suit::Clubs),
        card(Rank::Eight, Suit::Clubs),
        card(Rank::Nine, Suit::Clubs),
        card(Rank::Ten, Suit::Clubs),
    ];
    let expected = [
        PokerHand::StraightFlush,
        PokerHand::Flush,
        PokerHand::Pair,
    ];
    test_hand_correctness(cards, &expected);
}

#[test]
fn test_for_natural_full_house_with_single_wild() {
    let cards = vec![
        card(Rank::Jack, Suit::Diamonds),
        card(Rank::Jack, Suit::Spades),
        card(Rank::Jack, Suit::Clubs),
        card(Rank::Nine, Suit::Hearts),
        card(Rank::Nine, Suit::Wild),
    ];
    let expected = [
        PokerHand::FullHouse,
        PokerHand::Pair,
        PokerHand::ThreeOfAKind,
        PokerHand::TwoPair,
    ];
    test_hand_correctness(cards, &expected);
}

#[test]
fn test_flush_with_wild_cards_as_filler() {
    let cards = vec![
        card(Rank::Two, Suit::Spades),
        card(Rank::Four, Suit::Spades),
        card(Rank::Ace, Suit::Wild),
        card(Rank::Eight, Suit::Spades),
        card(Rank::King, Suit::Wild),
    ];
    let expected = [
        PokerHand::Flush,
    ];
    test_hand_correctness(cards, &expected);
}

#[test]
fn test_higher_flush_with_wild_cards() {
    let cards = vec![
        card(Rank::Nine, Suit::Hearts),
        card(Rank::Ten, Suit::Hearts),
        card(Rank::Jack, Suit::Hearts),
        card(Rank::Queen, Suit::Wild),
        card(Rank::King, Suit::Wild),
        card(Rank::Ace, Suit::Spades),
    ];
    let expected = [
        PokerHand::StraightFlush,
        PokerHand::Straight,
    ];
    test_hand_correctness(cards, &expected);
}

#[test]
fn test_natural_full_house_vs_wild_full_house() {
    let cards = vec![
        card(Rank::Jack, Suit::Diamonds),
        card(Rank::Jack, Suit::Spades),
        card(Rank::Jack, Suit::Clubs),
        card(Rank::Nine, Suit::Hearts),
        card(Rank::Nine, Suit::Wild),
    ];
    let expected = [
        PokerHand::FullHouse,
        PokerHand::Pair,
        PokerHand::ThreeOfAKind,
        PokerHand::TwoPair,
    ];
    test_hand_correctness(cards, &expected);
}
