use hanabot::cards::{standard_cards, Card, Deck};
use hanabot::game::Game;
use hanabot::values::{Clue, ClueError, Color, DiscardError, Number, PlayError};

use Color::{Blue, Green, Red, White, Yellow};
use Number::{Five, Four, One, Three, Two};

/// A full deck whose top cards, first drawn first, are the given ones; the
/// rest lie below in canonical order.
fn deck_with_top(top: &[(Color, Number)]) -> Deck {
    let mut rest: Vec<Card> = standard_cards();
    let mut picked: Vec<Card> = Vec::new();
    for &(color, number) in top {
        let at = rest
            .iter()
            .position(|c| c.color == color && c.number == number)
            .unwrap();
        picked.push(rest.remove(at));
    }
    picked.reverse();
    rest.extend(picked);
    Deck::from_cards(rest)
}

fn names(list: &[&str]) -> Vec<String> {
    list.iter().map(|s| s.to_string()).collect()
}

fn faces(game: &Game, hand: usize) -> Vec<(Color, Number)> {
    game.hands()[hand]
        .cards
        .iter()
        .map(|c| (c.color, c.number))
        .collect()
}

fn pile(game: &Game, color: Color) -> Vec<Number> {
    game.pile(color).iter().map(|c| c.number).collect()
}

#[test]
fn new_game_deals_five_cards_to_two_and_three_players() {
    for n in [2usize, 3] {
        let players = names(&["a", "b", "c"][..n]);
        let game = Game::new(&players);
        assert_eq!(game.hands().len(), n);
        for hand in game.hands() {
            assert_eq!(hand.cards.len(), 5);
        }
        assert_eq!(game.clues(), 8);
        assert_eq!(game.lives(), 3);
        assert_eq!(game.deck().len(), 50 - n * 5);
        assert_eq!(game.deck().of(), 50);
        assert_eq!(game.turn(), 0);
        assert_eq!(game.score(), 0);
        assert_eq!(game.last_turns(), None);
        assert!(!game.is_unwinnable());
    }
}

#[test]
fn new_game_deals_four_cards_to_four_and_five_players() {
    for n in [4usize, 5] {
        let players = names(&["a", "b", "c", "d", "e"][..n]);
        let game = Game::new(&players);
        assert_eq!(game.hands().len(), n);
        for hand in game.hands() {
            assert_eq!(hand.cards.len(), 4);
        }
        assert_eq!(game.clues(), 8);
        assert_eq!(game.lives(), 3);
        assert_eq!(game.deck().len(), 50 - n * 4);
    }
}

#[test]
fn new_game_holds_every_card_of_the_full_deck_once() {
    let game = Game::new(&names(&["a", "b", "c", "d"]));
    let mut all: Vec<(Color, Number)> = Vec::new();
    for hand in game.hands() {
        all.extend(hand.cards.iter().map(|c| (c.color, c.number)));
    }
    assert_eq!(all.len(), 16);
    assert_eq!(game.deck().len(), 34);
    for color in [Red, Green, White, Blue, Yellow] {
        for (number, copies) in [(One, 3), (Two, 2), (Three, 2), (Four, 2), (Five, 1)] {
            let in_hands = all.iter().filter(|&&f| f == (color, number)).count();
            assert!(in_hands <= copies);
        }
    }
}

#[test]
fn shuffled_deck_is_a_permutation_of_the_full_deck() {
    let mut deck = Deck::default();
    assert_eq!(deck.len(), 50);
    assert_eq!(deck.of(), 50);
    let mut seen: Vec<(Color, Number)> = Vec::new();
    while let Some(card) = deck.draw() {
        assert!(card.clues.is_empty());
        seen.push((card.color, card.number));
    }
    assert_eq!(seen.len(), 50);
    assert!(deck.is_empty());
    assert_eq!(deck.of(), 50);
    for color in [Red, Green, White, Blue, Yellow] {
        for (number, copies) in [(One, 3), (Two, 2), (Three, 2), (Four, 2), (Five, 1)] {
            let count = seen.iter().filter(|&&f| f == (color, number)).count();
            assert_eq!(count, copies);
        }
    }
}

#[test]
fn with_deck_deals_from_the_top_in_turn_order() {
    let top = [
        (Red, One),
        (Red, Two),
        (Red, Three),
        (Red, Four),
        (Red, Five),
        (Blue, One),
        (Blue, Two),
        (Blue, Three),
        (Blue, Four),
        (Blue, Five),
    ];
    let game = Game::with_deck(&names(&["a", "b"]), deck_with_top(&top));
    assert_eq!(faces(&game, 0), top[..5].to_vec());
    assert_eq!(faces(&game, 1), top[5..].to_vec());
    assert_eq!(game.deck().len(), 40);
    assert_eq!(game.current_player(), "a");
    assert_eq!(game.players(), names(&["a", "b"]));
    assert_eq!(game.last_move(), "");
}

#[test]
fn clue_without_a_matching_card_is_refused() {
    let top = [
        (Green, One),
        (Green, Two),
        (Green, Three),
        (Green, Four),
        (Green, Five),
        (Blue, One),
        (Blue, Two),
        (Blue, Three),
        (Blue, Four),
        (Blue, Five),
    ];
    let mut game = Game::with_deck(&names(&["a", "b"]), deck_with_top(&top));
    let r = game.clue("b", Clue::Color(Red));
    assert_eq!(r, Err(ClueError::NoMatchingCards));
    assert_eq!(game.clues(), 8);
    assert_eq!(game.turn(), 0);
    assert_eq!(game.current_player(), "a");
    for card in &game.hands()[1].cards {
        assert!(card.clues.is_empty());
    }
    assert_eq!(game.last_move(), "");
}

#[test]
fn clue_marks_only_the_cards_it_points_at() {
    let top = [
        (Green, One),
        (Green, Two),
        (Green, Three),
        (Green, Four),
        (Green, Five),
        (Blue, One),
        (Red, One),
        (Blue, Three),
        (Yellow, One),
        (Blue, Five),
    ];
    let mut game = Game::with_deck(&names(&["a", "b"]), deck_with_top(&top));
    let r = game.clue_after("b", Clue::Number(One), Some(5));
    assert_eq!(r, Ok(3));
    assert_eq!(game.clues(), 7);
    assert_eq!(game.turn(), 1);
    let logs: Vec<usize> = game.hands()[1].cards.iter().map(|c| c.clues.len()).collect();
    assert_eq!(logs, vec![1, 1, 0, 1, 0]);
    assert_eq!(game.hands()[1].cards[0].clues[0], (0, Clue::Number(One)));
    assert_eq!(
        game.last_move(),
        "<@a> clued <@b> that 3 cards are :one: after 5 seconds"
    );
    assert_eq!(game.hands()[1].cards[0].known(), ":rainbow: :one:");
    assert_eq!(game.hands()[1].cards[2].known(), ":rainbow: :keycap_star:");

    let r = game.clue_after("a", Clue::Color(Green), Some(61));
    assert_eq!(r, Ok(5));
    assert_eq!(
        game.last_move(),
        "<@b> clued <@a> that 5 cards are :deciduous_tree: after 1 minutes"
    );
    assert_eq!(game.hands()[0].cards[4].known(), ":deciduous_tree: :keycap_star:");

    let r = game.clue_after("b", Clue::Color(Red), None);
    assert_eq!(r, Ok(1));
    assert_eq!(
        game.last_move(),
        "<@a> clued <@b> that 1 card is :heart: after a while"
    );
    assert_eq!(game.hands()[1].cards[1].known(), ":heart: :one:");
    assert_eq!(game.clues(), 5);
}

#[test]
fn clue_to_oneself_or_a_stranger_is_refused() {
    let mut game = Game::new(&names(&["a", "b", "c"]));
    assert_eq!(game.clue("a", Clue::Number(One)), Err(ClueError::NoSuchPlayer));
    assert_eq!(game.clue("z", Clue::Number(One)), Err(ClueError::NoSuchPlayer));
    assert_eq!(game.clues(), 8);
    assert_eq!(game.turn(), 0);
}

#[test]
fn clue_without_tokens_is_refused() {
    let top = [
        (Green, One),
        (Green, Two),
        (Green, Three),
        (Green, Four),
        (Green, Five),
        (Blue, One),
        (Blue, Two),
        (Blue, Three),
        (Blue, Four),
        (Blue, Five),
    ];
    let mut game = Game::with_deck(&names(&["a", "b"]), deck_with_top(&top));
    for turn in 0..8 {
        let (to, clue) = if turn % 2 == 0 {
            ("b", Clue::Color(Blue))
        } else {
            ("a", Clue::Color(Green))
        };
        assert_eq!(game.clue(to, clue), Ok(5));
    }
    assert_eq!(game.clues(), 0);
    assert_eq!(game.clue("b", Clue::Color(Blue)), Err(ClueError::NotEnoughClues));
    assert_eq!(game.clues(), 0);
    assert_eq!(game.turn(), 0);
    assert_eq!(game.hands()[1].cards[0].clues.len(), 4);
}

#[test]
fn playing_a_one_starts_a_stack() {
    let top = [
        (White, One),
        (Green, Two),
        (Green, Three),
        (Green, Four),
        (Green, Five),
        (Blue, One),
        (Blue, Two),
        (Blue, Three),
        (Blue, Four),
        (Blue, Five),
        (Yellow, Four),
    ];
    let mut game = Game::with_deck(&names(&["a", "b"]), deck_with_top(&top));
    let r = game.play_after(0, Some(3));
    assert_eq!(r, Ok(()));
    assert_eq!(game.top(White), Some(One));
    assert_eq!(game.top(Red), None);
    assert_eq!(game.score(), 1);
    assert_eq!(game.turn(), 1);
    assert_eq!(game.current_player(), "b");
    assert_eq!(game.clues(), 8);
    assert_eq!(game.lives(), 3);
    assert_eq!(
        faces(&game, 0),
        vec![(Green, Two), (Green, Three), (Green, Four), (Green, Five), (Yellow, Four)]
    );
    assert_eq!(game.deck().len(), 39);
    assert_eq!(game.last_move(), "<@a> played a :cloud: :one: after 3 seconds");
}

#[test]
fn discard_with_all_clue_tokens_is_refused() {
    let mut game = Game::new(&names(&["a", "b"]));
    let before = faces(&game, 0);
    assert_eq!(game.discard(0), Err(DiscardError::MaxClues));
    assert_eq!(faces(&game, 0), before);
    for color in [Red, Green, White, Blue, Yellow] {
        assert!(game.pile(color).is_empty());
    }
    assert_eq!(game.turn(), 0);
    assert_eq!(game.clues(), 8);
    assert_eq!(game.deck().len(), 40);
}

#[test]
fn three_misplays_end_the_game() {
    let top = [
        (White, Two),
        (Green, One),
        (Green, Three),
        (Green, Four),
        (Green, Five),
        (Blue, Three),
        (Blue, Two),
        (Blue, One),
        (Blue, Four),
        (Blue, Five),
        (Yellow, Four),
    ];
    let mut game = Game::with_deck(&names(&["a", "b"]), deck_with_top(&top));
    assert_eq!(game.play(1), Ok(()));
    assert_eq!(game.score(), 1);
    assert_eq!(game.lives(), 3);
    assert_eq!(game.play(0), Ok(()));
    assert_eq!(game.lives(), 2);
    assert_eq!(game.play(0), Ok(()));
    assert_eq!(game.lives(), 1);
    assert_eq!(game.play(0), Err(PlayError::GameOver));
    assert_eq!(game.lives(), 0);
    assert_eq!(game.score(), 1);
    assert!(game.is_lost());
    assert_eq!(pile(&game, Blue), vec![Two, Three]);
    assert_eq!(pile(&game, White), vec![Two]);
    assert_eq!(game.top(Green), Some(One));
}

#[test]
fn play_of_a_wrong_rank_costs_a_fuse_and_is_discarded() {
    let top = [
        (White, Three),
        (Green, Two),
        (Green, Three),
        (Green, Four),
        (Green, Five),
        (Blue, One),
        (Blue, Two),
        (Blue, Three),
        (Blue, Four),
        (Blue, Five),
        (Yellow, Four),
    ];
    let mut game = Game::with_deck(&names(&["a", "b"]), deck_with_top(&top));
    assert_eq!(game.play_after(0, Some(0)), Ok(()));
    assert_eq!(game.lives(), 2);
    assert_eq!(game.top(White), None);
    assert_eq!(game.score(), 0);
    assert_eq!(pile(&game, White), vec![Three]);
    assert_eq!(game.turn(), 1);
    assert_eq!(game.clues(), 8);
    assert_eq!(
        game.last_move(),
        "<@a> incorrectly played a :cloud: :three: after 0 seconds"
    );
}

#[test]
fn play_of_a_missing_card_is_refused() {
    let mut game = Game::new(&names(&["a", "b"]));
    let before = faces(&game, 0);
    assert_eq!(game.play(5), Err(PlayError::NoSuchCard));
    assert_eq!(game.play(77), Err(PlayError::NoSuchCard));
    assert_eq!(faces(&game, 0), before);
    assert_eq!(game.turn(), 0);
    assert_eq!(game.lives(), 3);
    assert_eq!(game.deck().len(), 40);
    assert_eq!(game.last_move(), "");
}

#[test]
fn second_five_on_a_full_stack_is_a_misplay() {
    let top = [
        (Red, One),
        (Red, Two),
        (Red, Three),
        (Red, Four),
        (Red, Five),
        (Green, One),
        (Green, Two),
        (Green, Three),
        (Green, Four),
        (Green, Five),
    ];
    let mut cards: Vec<Card> = standard_cards();
    cards.push(Card::new(Red, Five));
    let mut deck_cards: Vec<Card> = Vec::new();
    let mut picked: Vec<Card> = Vec::new();
    for &(color, number) in &top {
        let at = cards
            .iter()
            .position(|c| c.color == color && c.number == number)
            .unwrap();
        picked.push(cards.remove(at));
    }
    let extra = cards
        .iter()
        .position(|c| c.color == Red && c.number == Five)
        .unwrap();
    let second_five = cards.remove(extra);
    deck_cards.extend(cards);
    deck_cards.push(second_five);
    picked.reverse();
    deck_cards.extend(picked);
    let mut game = Game::with_deck(&names(&["a", "b"]), Deck::from_cards(deck_cards));
    for _ in 0..4 {
        assert_eq!(game.play_after(0, None), Ok(()));
        assert_eq!(game.clue_after("a", Clue::Color(Red), None).is_ok(), true);
    }
    assert_eq!(game.top(Red), Some(Four));
    assert_eq!(game.clues(), 4);
    assert_eq!(game.play_after(0, None), Ok(()));
    assert_eq!(game.top(Red), Some(Five));
    assert_eq!(game.clues(), 5);
    assert_eq!(game.score(), 5);
    assert_eq!(faces(&game, 0)[0], (Red, Five));
    assert_eq!(game.clue_after("a", Clue::Color(Red), None), Ok(1));
    assert_eq!(game.play_after(0, None), Ok(()));
    assert_eq!(game.top(Red), Some(Five));
    assert_eq!(game.lives(), 2);
    assert_eq!(game.clues(), 4);
    assert_eq!(pile(&game, Red), vec![Five]);
}

#[test]
fn completing_a_stack_refunds_a_clue_up_to_the_cap() {
    let top = [
        (Red, One),
        (Red, Two),
        (Red, Three),
        (Red, Four),
        (Red, Five),
        (Green, One),
        (Green, Two),
        (Green, Three),
        (Green, Four),
        (Green, Five),
    ];
    let mut game = Game::with_deck(&names(&["a", "b"]), deck_with_top(&top));
    for rank in 1..=4 {
        assert_eq!(game.play_after(0, None), Ok(()));
        assert_eq!(game.score(), rank);
        assert_eq!(game.clue_after("a", Clue::Color(Red), None).is_ok(), true);
    }
    assert_eq!(game.clues(), 4);
    assert_eq!(game.play_after(0, None), Ok(()));
    assert_eq!(game.top(Red), Some(Five));
    assert_eq!(game.clues(), 5);
    assert_eq!(game.lives(), 3);

    let mut capped = Game::with_deck(&names(&["a", "b"]), deck_with_top(&top));
    for _ in 0..5 {
        assert_eq!(capped.play_after(0, None), Ok(()));
        assert_eq!(capped.play_after(0, None), Ok(()));
    }
    assert_eq!(capped.top(Red), Some(Five));
    assert_eq!(capped.top(Green), Some(Five));
    assert_eq!(capped.clues(), 8);
    assert_eq!(capped.score(), 10);
    assert_eq!(capped.score_smiley(), ":disappointed:");
}

#[test]
fn discard_returns_a_clue_and_sorts_the_pile() {
    let top = [
        (Red, Four),
        (Red, Two),
        (Red, Three),
        (Red, One),
        (Red, Five),
        (Green, One),
        (Green, Two),
        (Green, Three),
        (Green, Four),
        (Green, Five),
        (Red, Two),
        (Blue, One),
    ];
    let mut game = Game::with_deck(&names(&["a", "b"]), deck_with_top(&top));
    for _ in 0..6 {
        let to = if game.turn() == 0 { "b" } else { "a" };
        let clue = if game.turn() == 0 {
            Clue::Color(Green)
        } else {
            Clue::Color(Red)
        };
        assert_eq!(game.clue_after(to, clue, None).is_ok(), true);
    }
    assert_eq!(game.clues(), 2);
    assert_eq!(game.turn(), 0);
    assert_eq!(game.discard_after(0, Some(7200)), Ok(()));
    assert_eq!(game.clues(), 3);
    assert_eq!(pile(&game, Red), vec![Four]);
    assert_eq!(
        game.last_move(),
        "<@a> discarded a :heart: :four: after 2 hours"
    );
    assert_eq!(game.hands()[0].cards[4].color, Red);
    assert_eq!(game.hands()[0].cards[4].number, Two);
    assert_eq!(game.hands()[0].cards[4].clues.len(), 0);
    assert_eq!(game.hands()[0].cards[0].clues.len(), 3);
    assert_eq!(game.clue_after("a", Clue::Number(Two), None), Ok(2));
    assert_eq!(game.discard_after(0, None), Ok(()));
    assert_eq!(pile(&game, Red), vec![Two, Four]);
    assert_eq!(game.clue_after("a", Clue::Number(Two), None), Ok(1));
    assert_eq!(game.discard_after(3, None), Ok(()));
    assert_eq!(pile(&game, Red), vec![Two, Two, Four]);
    let log_lengths: Vec<usize> = game.pile(Red).iter().map(|c| c.clues.len()).collect();
    assert_eq!(log_lengths, vec![2, 4, 3]);
    assert_eq!(game.discard(9), Err(DiscardError::NoSuchCard));
    assert_eq!(game.lives(), 3);
}

#[test]
fn final_round_gives_each_player_one_more_turn() {
    for n in 2..=5usize {
        let players = names(&["a", "b", "c", "d", "e"][..n]);
        let mut game = Game::new(&players);
        let size = if n <= 3 { 5 } else { 4 };
        let mut turns = 0;
        while game.last_turns().is_none() {
            let turn = game.turn();
            if game.clues() == 8 {
                let other = (turn + 1) % n;
                let color = game.hands()[other].cards[0].color;
                let to = players[other].clone();
                assert!(game.clue(&to, Clue::Color(color)).is_ok());
            } else {
                assert_eq!(game.discard(0), Ok(()));
            }
            for hand in game.hands() {
                assert_eq!(hand.cards.len(), size);
            }
            assert!(game.clues() <= 8);
            turns += 1;
            assert!(turns < 200);
        }
        assert!(game.deck().is_empty());
        assert_eq!(game.last_turns(), Some(0));
        for k in 1..=n {
            assert!(!game.is_lost());
            let turn = game.turn();
            let result = if k % 2 == 0 {
                let other = (turn + 1) % n;
                let color = game.hands()[other].cards[0].color;
                let to = players[other].clone();
                game.clue(&to, Clue::Color(color)).map(|_| ())
            } else if game.clues() < 8 {
                game.discard(0).map_err(|e| match e {
                    DiscardError::GameOver => ClueError::GameOver,
                    _ => ClueError::NoSuchPlayer,
                })
            } else {
                let other = (turn + 1) % n;
                let color = game.hands()[other].cards[0].color;
                let to = players[other].clone();
                game.clue(&to, Clue::Color(color)).map(|_| ())
            };
            assert_eq!(game.last_turns(), Some(k));
            if k < n {
                assert_eq!(result, Ok(()));
            } else {
                assert_eq!(result, Err(ClueError::GameOver));
            }
            for hand in game.hands() {
                assert!(hand.cards.len() == size || hand.cards.len() == size - 1);
            }
        }
        assert!(game.is_lost());
    }
}

#[test]
fn last_play_of_the_final_round_is_game_over() {
    let players = names(&["a", "b"]);
    let mut game = Game::new(&players);
    while game.last_turns().is_none() {
        if game.clues() == 8 {
            let other = (game.turn() + 1) % 2;
            let color = game.hands()[other].cards[0].color;
            assert!(game.clue(&players[other].clone(), Clue::Color(color)).is_ok());
        } else {
            assert_eq!(game.discard(0), Ok(()));
        }
    }
    let lives = game.lives();
    let first = game.play(0);
    assert_eq!(first, Ok(()));
    assert!(game.lives() == lives || game.lives() == lives - 1);
    assert_eq!(game.hands()[(game.turn() + 1) % 2].cards.len(), 4);
    assert_eq!(game.play(0), Err(PlayError::GameOver));
    assert_eq!(game.last_turns(), Some(2));
}

#[test]
fn unwinnable_is_told_once() {
    let top = [
        (Red, Five),
        (Green, One),
        (Green, Three),
        (Green, Four),
        (Green, Five),
        (Blue, Three),
        (Blue, Two),
        (Blue, One),
        (Blue, Four),
        (Blue, Five),
    ];
    let mut game = Game::with_deck(&names(&["a", "b"]), deck_with_top(&top));
    assert!(!game.became_unwinnable());
    assert!(!game.is_unwinnable());
    assert_eq!(game.play(0), Ok(()));
    assert_eq!(pile(&game, Red), vec![Five]);
    assert!(game.became_unwinnable());
    assert!(game.is_unwinnable());
    assert!(!game.became_unwinnable());
    assert!(game.is_unwinnable());
    assert_eq!(game.play(0), Ok(()));
    assert!(!game.became_unwinnable());
    assert!(game.is_unwinnable());
}

#[test]
fn game_with_some_copies_left_is_not_unwinnable() {
    let top = [
        (Red, One),
        (Red, One),
        (Green, Three),
        (Green, Four),
        (Green, Five),
        (Blue, Three),
        (Blue, Two),
        (Blue, One),
        (Blue, Four),
        (Blue, Five),
        (Red, One),
        (Red, Two),
        (Red, Two),
    ];
    let mut game = Game::with_deck(&names(&["a", "b"]), deck_with_top(&top));
    assert_eq!(game.clue_after("b", Clue::Color(Blue), None), Ok(5));
    assert_eq!(game.clue_after("a", Clue::Color(Red), None), Ok(2));
    assert_eq!(game.discard_after(0, None), Ok(()));
    assert!(!game.became_unwinnable());
    assert_eq!(game.clue_after("a", Clue::Color(Red), None), Ok(2));
    assert_eq!(game.discard_after(0, None), Ok(()));
    assert_eq!(pile(&game, Red), vec![One, One]);
    assert!(!game.became_unwinnable());
    assert_eq!(game.clue_after("a", Clue::Color(Red), None), Ok(2));
    assert_eq!(faces(&game, 0)[3], (Red, One));
    assert_eq!(game.discard_after(3, None), Ok(()));
    assert_eq!(pile(&game, Red), vec![One, One, One]);
    assert!(game.became_unwinnable());
    assert!(!game.became_unwinnable());
}

#[test]
fn number_steps_up_and_stops_at_five() {
    assert_eq!(One.add(0), One);
    assert_eq!(One.add(1), Two);
    assert_eq!(Two.add(2), Four);
    assert_eq!(Four.add(1), Five);
    assert_eq!(Five.add(1), Five);
    assert_eq!(One.add(9), Five);
    assert_eq!(Three.as_usize(), 3);
    assert_eq!(One.total(), 3);
    assert_eq!(Two.total(), 2);
    assert_eq!(Five.total(), 1);
}

#[test]
fn values_are_shown_as_their_symbols() {
    assert_eq!(Red.to_string(), ":heart:");
    assert_eq!(Green.to_string(), ":deciduous_tree:");
    assert_eq!(White.to_string(), ":cloud:");
    assert_eq!(Blue.to_string(), ":droplet:");
    assert_eq!(Yellow.to_string(), ":sunny:");
    assert_eq!(One.to_string(), ":one:");
    assert_eq!(Two.to_string(), ":two:");
    assert_eq!(Three.to_string(), ":three:");
    assert_eq!(Four.to_string(), ":four:");
    assert_eq!(Five.to_string(), ":five:");
    assert_eq!(Clue::Color(Blue).to_string(), ":droplet:");
    assert_eq!(Clue::Number(Four).to_string(), ":four:");
    assert_eq!(Card::new(Yellow, Two).to_string(), ":sunny: :two:");
    for (i, color) in [Red, Green, White, Blue, Yellow].into_iter().enumerate() {
        assert_eq!(color.index(), i);
        assert_eq!(Color::from_index(i), color);
    }
}

#[test]
fn known_text_follows_the_clue_log() {
    let mut card = Card::new(Blue, Three);
    assert_eq!(card.known(), ":rainbow: :keycap_star:");
    card.clues.push((1, Clue::Color(Red)));
    card.clues.push((1, Clue::Number(Two)));
    assert_eq!(card.known(), ":rainbow: :keycap_star:");
    card.clues.push((2, Clue::Number(Three)));
    assert_eq!(card.known(), ":rainbow: :three:");
    card.clues.push((0, Clue::Color(Blue)));
    assert_eq!(card.known(), ":droplet: :three:");
    let mut other = Card::new(Blue, Three);
    other.clues.push((0, Clue::Color(Blue)));
    assert_eq!(other.known(), ":droplet: :keycap_star:");
    assert!(other.knows_color());
    assert!(!other.knows_number());
}

#[test]
fn shuffled_decks_are_not_all_in_the_same_order() {
    let canonical: Vec<(Color, Number)> = standard_cards()
        .iter()
        .map(|c| (c.color, c.number))
        .collect();
    let mut orders: Vec<Vec<(Color, Number)>> = Vec::new();
    for _ in 0..4 {
        let cards = Deck::default().into_cards();
        orders.push(cards.iter().map(|c| (c.color, c.number)).collect());
    }
    assert!(orders.iter().any(|order| *order != canonical));
    assert!(orders.iter().any(|order| *order != orders[0]));
}
