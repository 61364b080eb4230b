use hanabot::cards::{Card, Deck, Hand};
use hanabot::values::{Clue, ClueError, Color, Number};

fn hand_of(player: &str, faces: &[(Color, Number)]) -> Hand {
    let mut hand = Hand::new(player);
    for &(color, number) in faces {
        hand.cards.push(Card::new(color, number));
    }
    hand
}

#[test]
fn deck_draws_from_the_top_until_empty() {
    let mut deck = Deck::from_cards(vec![
        Card::new(Color::Red, Number::One),
        Card::new(Color::Blue, Number::Two),
    ]);
    assert_eq!(deck.len(), 2);
    assert_eq!(deck.of(), 2);
    assert!(!deck.is_empty());
    let top = deck.draw().unwrap();
    assert_eq!((top.color, top.number), (Color::Blue, Number::Two));
    let next = deck.draw().unwrap();
    assert_eq!((next.color, next.number), (Color::Red, Number::One));
    assert!(deck.draw().is_none());
    assert!(deck.draw().is_none());
    assert!(deck.is_empty());
    assert_eq!(deck.len(), 0);
    assert_eq!(deck.of(), 2);
}

#[test]
fn hand_draws_to_its_right_end() {
    let mut deck = Deck::from_cards(vec![
        Card::new(Color::Red, Number::One),
        Card::new(Color::Blue, Number::Two),
    ]);
    let mut hand = Hand::new("a");
    assert_eq!(hand.player, "a");
    assert!(hand.cards.is_empty());
    assert!(hand.draw(&mut deck));
    assert!(hand.draw(&mut deck));
    assert!(!hand.draw(&mut deck));
    let faces: Vec<(Color, Number)> = hand.cards.iter().map(|c| (c.color, c.number)).collect();
    assert_eq!(
        faces,
        vec![(Color::Blue, Number::Two), (Color::Red, Number::One)]
    );
    assert!(deck.is_empty());
}

#[test]
fn hand_remove_shifts_the_rest_left() {
    let mut hand = hand_of(
        "a",
        &[
            (Color::Red, Number::One),
            (Color::Blue, Number::Two),
            (Color::White, Number::Three),
        ],
    );
    assert!(hand.remove(3).is_none());
    assert!(hand.remove(usize::MAX).is_none());
    assert_eq!(hand.cards.len(), 3);
    let taken = hand.remove(1).unwrap();
    assert_eq!((taken.color, taken.number), (Color::Blue, Number::Two));
    let faces: Vec<(Color, Number)> = hand.cards.iter().map(|c| (c.color, c.number)).collect();
    assert_eq!(
        faces,
        vec![(Color::Red, Number::One), (Color::White, Number::Three)]
    );
    let taken = hand.remove(1).unwrap();
    assert_eq!((taken.color, taken.number), (Color::White, Number::Three));
    let taken = hand.remove(0).unwrap();
    assert_eq!((taken.color, taken.number), (Color::Red, Number::One));
    assert!(hand.remove(0).is_none());
}

#[test]
fn hand_clue_counts_and_marks_matches() {
    let mut hand = hand_of(
        "a",
        &[
            (Color::Red, Number::One),
            (Color::Blue, Number::One),
            (Color::Red, Number::Three),
        ],
    );
    assert_eq!(hand.count_matches(Clue::Color(Color::Red)), 2);
    assert_eq!(hand.count_matches(Clue::Number(Number::Five)), 0);
    assert_eq!(
        hand.clue(4, Clue::Color(Color::Green)),
        Err(ClueError::NoMatchingCards)
    );
    assert!(hand.cards.iter().all(|c| c.clues.is_empty()));
    assert_eq!(hand.clue(4, Clue::Color(Color::Red)), Ok(2));
    assert_eq!(hand.cards[0].clues, vec![(4, Clue::Color(Color::Red))]);
    assert!(hand.cards[1].clues.is_empty());
    assert_eq!(hand.cards[2].clues, vec![(4, Clue::Color(Color::Red))]);
    assert_eq!(hand.clue(2, Clue::Number(Number::One)), Ok(2));
    assert_eq!(
        hand.cards[0].clues,
        vec![(4, Clue::Color(Color::Red)), (2, Clue::Number(Number::One))]
    );
    assert_eq!(hand.cards[1].clues, vec![(2, Clue::Number(Number::One))]);
    assert_eq!(hand.cards[2].clues, vec![(4, Clue::Color(Color::Red))]);
    assert!(Clue::Number(Number::One).matches(Color::Blue, Number::One));
    assert!(!Clue::Color(Color::Red).matches(Color::Blue, Number::One));
}

#[test]
fn empty_hand_takes_no_clue() {
    let mut hand = Hand::new("a");
    assert_eq!(
        hand.clue(0, Clue::Number(Number::One)),
        Err(ClueError::NoMatchingCards)
    );
}
