//! What the players are told, as a function of the state of the game: the
//! messages of each report, in order.

use crate::cards::CardView;
use crate::model::{mention, seat_of, GameView};
use crate::sink::Message;
use crate::text::{capitalised, decimal_text, dur_text, join_text, replaced};
use crate::values::Color;
use vstd::prelude::*;

verus! {

/// What stands between the cards of a hand.
pub open spec fn bar() -> Seq<char> {
    "  |  "@
}

/// A face for a score: the better the score, the happier.
pub open spec fn smiley(points: int) -> Seq<char> {
    if points >= 25 {
        ":tada:"@
    } else if points >= 24 {
        ":tired_face:"@
    } else if points >= 23 {
        ":slightly_smiling_face:"@
    } else if points >= 22 {
        ":neutral_face:"@
    } else if points >= 20 {
        ":confused:"@
    } else if points >= 15 {
        ":slightly_frowning_face:"@
    } else if points >= 10 {
        ":disappointed:"@
    } else {
        ":face_with_rolling_eyes:"@
    }
}

/// The faces of the cards, as text.
pub open spec fn face_texts(cards: Seq<CardView>) -> Seq<Seq<char>> {
    cards.map_values(|c: CardView| c.text())
}

/// What the holder knows of each of the cards, as text.
pub open spec fn known_texts(cards: Seq<CardView>) -> Seq<Seq<char>> {
    cards.map_values(|c: CardView| c.known_text())
}

/// What the holder knows of each of the cards, each behind its position
/// counted from 1.
pub open spec fn numbered_known_texts(cards: Seq<CardView>) -> Seq<Seq<char>> {
    Seq::new(
        cards.len(),
        |i: int| decimal_text((i + 1) as nat) + ": "@ + cards[i].known_text(),
    )
}

/// The text repeated `n` times.
pub open spec fn repeated(text: Seq<char>, n: nat) -> Seq<char>
    decreases n,
{
    if n == 0 {
        Seq::empty()
    } else {
        repeated(text, (n - 1) as nat) + text
    }
}

/// A color's line of the discard report with the first `upto` cards of its
/// pile: the color, a space, and the numbers of the cards one after another.
pub open spec fn pile_line(color: Color, pile: Seq<CardView>, upto: nat) -> Seq<char>
    decreases upto,
{
    if upto == 0 {
        color.text() + " "@
    } else {
        pile_line(color, pile, (upto - 1) as nat) + pile[upto - 1].number.text()
    }
}

/// How many of the ten places of the deck's gauge stand for cards that are
/// left: ten times the share that is left, rounded to the nearest whole,
/// halves up.
pub open spec fn gauge(left: nat, total: nat) -> nat {
    ((20 * left + total) / (2 * total)) as nat
}

/// The line of the deck report for a deck that has cards left.
pub open spec fn deck_line(left: nat, total: nat) -> Seq<char> {
    replaced(
        "`["@ + repeated("-"@, (10 - gauge(left, total)) as nat) + repeated(
            " "@,
            gauge(left, total),
        ) + "]` "@ + decimal_text(left) + " cards left"@,
        "- "@,
        "> "@,
    )
}

impl GameView {
    // Hands

    /// The line that names the owner of a hand, and says so where it is
    /// that player's turn.
    pub open spec fn hand_title(self, hand: int) -> Seq<char> {
        if hand == self.turn {
            mention(self.hands[hand].player) + " &lt;-- current turn"@
        } else {
            mention(self.hands[hand].player)
        }
    }

    /// What the player at `me` is told of the hand at `hand`: its owner
    /// and, for another player's hand, the cards and what their holder
    /// knows of them; for the player's own hand only what is known, and not
    /// even that where `skip_self` is set.
    pub open spec fn hand_lines(self, user: Seq<char>, me: int, hand: int, skip_self: bool) -> Seq<
        Message,
    > {
        let cards = self.hands[hand].cards;
        let known = join_text(known_texts(cards), bar()) + " known"@;
        if hand != me {
            seq![
                (user, self.hand_title(hand)),
                (user, join_text(face_texts(cards), bar()) + " in hand\n"@ + known),
            ]
        } else if skip_self {
            seq![(user, self.hand_title(hand))]
        } else {
            seq![(user, self.hand_title(hand)), (user, known)]
        }
    }

    /// What the player at `me` is told of the first `count` hands in turn
    /// order, counted from the player's own.
    pub open spec fn hands_upto(
        self,
        user: Seq<char>,
        me: int,
        count: nat,
        skip_self: bool,
    ) -> Seq<Message>
        decreases count,
    {
        if count == 0 {
            Seq::empty()
        } else {
            self.hands_upto(user, me, (count - 1) as nat, skip_self) + self.hand_lines(
                user,
                me,
                (me + count - 1) % (self.players() as int),
                skip_self,
            )
        }
    }

    /// The report of all hands for the named player.
    pub open spec fn hands_report(self, user: Seq<char>, skip_self: bool) -> Seq<Message> {
        seq![(user, "The other players' hands (in turn order) are:"@)] + self.hands_upto(
            user,
            seat_of(self.hands, user),
            self.players(),
            skip_self,
        )
    }

    /// What the named player is told of what the holder of the hand at
    /// `hand` knows of it; with `index`, each card behind its position.
    pub open spec fn known_report(self, hand: int, user: Seq<char>, index: bool) -> Seq<Message> {
        seq![
            (
                user,
                join_text(
                    if index {
                        numbered_known_texts(self.hands[hand].cards)
                    } else {
                        known_texts(self.hands[hand].cards)
                    },
                    bar(),
                ),
            ),
        ]
    }

    /// What the named player is told of what the player written as
    /// `player` knows of the own hand.
    pub open spec fn clues_report(self, user: Seq<char>, player: Seq<char>) -> Seq<Message> {
        let name = crate::words::named(player);
        if crate::model::seated(self.hands, name) {
            let hand = seat_of(self.hands, name);
            seq![(user, mention(self.hands[hand].player) + " knows the following about their hand:"@)]
                + self.known_report(hand, user, false)
        } else {
            seq![(user, "there is no player in this game named "@ + player)]
        }
    }

    // Discard pile

    /// Whether nothing was discarded yet.
    pub open spec fn nothing_discarded(self) -> bool {
        forall|c: Color| !self.discard.dom().contains(c)
    }

    /// The lines of the discard report for the first `count` colors of the
    /// display order: one for each color that has cards in the pile.
    pub open spec fn piles_upto(self, user: Seq<char>, count: nat) -> Seq<Message>
        decreases count,
    {
        if count == 0 {
            Seq::empty()
        } else {
            let color = Color::at(count - 1);
            self.piles_upto(user, (count - 1) as nat) + if self.discard.dom().contains(color) {
                seq![(user, pile_line(color, self.discard[color], self.discard[color].len()))]
            } else {
                Seq::empty()
            }
        }
    }

    /// The report of the discard pile for the named player.
    pub open spec fn discards_report(self, user: Seq<char>) -> Seq<Message> {
        if self.nothing_discarded() {
            seq![(user, "The discard pile is empty."@)]
        } else {
            seq![(user, "The discard pile contains the following cards:"@)] + self.piles_upto(
                user,
                5,
            )
        }
    }

    // Deck

    /// The report of the deck for the named player.
    pub open spec fn deck_report(self, user: Seq<char>) -> Seq<Message> {
        if self.deck.len() == 0 {
            seq![(user, "The deck is depleted."@)]
        } else {
            seq![(user, deck_line(self.deck.len(), self.deck_total))]
        }
    }

    // State of the game

    /// The line that says whose turn it is and what tokens are left, as
    /// the player at `hand` is told.
    pub open spec fn turn_line(self, hand: int) -> Seq<char> {
        let last = if self.last_turns is Some {
            " *last*"@
        } else {
            Seq::empty()
        };
        let setup = if self.turn == hand {
            "It's *your*"@ + last + " turn"@
        } else {
            "It's "@ + mention(self.mover().player) + "'s"@ + last + " turn"@
        };
        ":hourglass: "@ + setup + "; *"@ + decimal_text(self.clues)
            + "* :information_source: and "@ + decimal_text(self.lives) + " :bomb: remain."@
    }

    /// Whether the deck is about to run out: it has cards, but fewer than
    /// two for each player.
    pub open spec fn deck_low(self) -> bool {
        0 < self.deck.len() < 2 * self.players()
    }

    /// The warning that the deck is about to run out.
    pub open spec fn low_line(self) -> Seq<char> {
        ":warning: *There are only "@ + decimal_text(self.deck.len())
            + " cards left in the deck!*"@
    }

    /// A color's stack as text: the color and its top card, or a zero.
    pub open spec fn stack_text(self, color: Color) -> Seq<char> {
        color.text() + " "@ + if self.played.dom().contains(color) {
            self.played[color].text()
        } else {
            ":zero:"@
        }
    }

    /// The five stacks as text, in display order.
    pub open spec fn stack_texts(self) -> Seq<Seq<char>> {
        Seq::new(5, |i: int| self.stack_text(Color::at(i)))
    }

    /// What the player at `hand` is told of the state of the game. A player
    /// whose turn it is not only gets the first lines.
    pub open spec fn state_report(self, hand: int) -> Seq<Message> {
        let user = self.hands[hand].player;
        let head = if self.deck_low() {
            seq![(user, self.turn_line(hand)), (user, self.low_line())]
        } else {
            seq![(user, self.turn_line(hand))]
        };
        if self.turn == hand {
            head + seq![
                (user, "Played:\n"@ + join_text(self.stack_texts(), bar())),
                (user, "Your hand, as far as you know, is:"@),
                (user, join_text(numbered_known_texts(self.hands[hand].cards), bar())),
                (user, Seq::empty()),
            ] + self.hands_report(user, true) + seq![
                (
                    user,
                    "\nWhen you have the time, let me know here what move you want to make next!"@,
                ),
            ]
        } else {
            head
        }
    }

    /// What the first `count` players are told of the state of the game.
    pub open spec fn states_upto(self, count: nat) -> Seq<Message>
        decreases count,
    {
        if count == 0 {
            Seq::empty()
        } else {
            self.states_upto((count - 1) as nat) + self.state_report(count - 1)
        }
    }

    // Progress

    /// The latest move as the player at `hand` is told of it: the player's
    /// own name is replaced by "you".
    pub open spec fn narration(self, hand: int) -> Message {
        (
            self.hands[hand].player,
            ":point_right: "@ + capitalised(
                replaced(
                    self.last_move.shown_to(hand as nat),
                    mention(self.hands[hand].player),
                    "you"@,
                ),
            ),
        )
    }

    /// The latest move as the first `count` players are told of it.
    pub open spec fn narrations_upto(self, count: nat) -> Seq<Message>
        decreases count,
    {
        if count == 0 {
            Seq::empty()
        } else {
            self.narrations_upto((count - 1) as nat).push(self.narration(count - 1))
        }
    }

    /// What the player at `hand` is told when the game is lost.
    pub open spec fn lost_line(self, hand: int, elapsed: Option<u64>) -> Message {
        (
            self.hands[hand].player,
            "Game over after "@ + dur_text(elapsed) + ".\nYou got "@ + decimal_text(
                self.score() as nat,
            ) + "/25 points "@ + smiley(self.score()) + "\nYour hand at the end was:\n"@
                + join_text(face_texts(self.hands[hand].cards), bar()),
        )
    }

    /// What the player at `hand` is told when the game is won.
    pub open spec fn won_line(self, hand: int, elapsed: Option<u64>) -> Message {
        (
            self.hands[hand].player,
            "You won the game with 25/25 points after "@ + dur_text(elapsed) + " "@ + smiley(
                self.score(),
            ),
        )
    }

    /// What the first `count` players are told when the game has ended.
    pub open spec fn endings_upto(self, count: nat, elapsed: Option<u64>) -> Seq<Message>
        decreases count,
    {
        if count == 0 {
            Seq::empty()
        } else {
            self.endings_upto((count - 1) as nat, elapsed).push(
                if self.lost() {
                    self.lost_line(count - 1, elapsed)
                } else {
                    self.won_line(count - 1, elapsed)
                },
            )
        }
    }

    /// Everything the players are told after a turn, `elapsed` seconds
    /// after the game began: the latest move, if there was one, and then
    /// either how the game ended or how it stands.
    pub open spec fn progress_report(self, elapsed: Option<u64>) -> Seq<Message> {
        (if self.last_move.shown_to(0).len() > 0 {
            self.narrations_upto(self.players())
        } else {
            Seq::empty()
        }) + if self.over() {
            self.endings_upto(self.players(), elapsed)
        } else {
            self.states_upto(self.players())
        }
    }
}

} // verus!
