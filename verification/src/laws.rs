//! What holds of every game: the rules of Hanabi as theorems about the
//! state machine.

use crate::cards::{count_touched, CardView};
use crate::model::{
    after_clue_wf, after_discard_wf, after_play_wf, count_rank, hand_size, initial,
    ins_pos_bounds, insert_sorted, seat_of, seated, GameView,
};
use crate::values::{Clue, ClueError, Color, DiscardError, Number, PlayError};
use vstd::prelude::*;

verus! {

/// One attempt at an action.
pub enum Step {
    Clue { to: Seq<char>, clue: Clue, elapsed: Option<u64> },
    Play { pos: int, elapsed: Option<u64> },
    Discard { pos: int, elapsed: Option<u64> },
}

impl GameView {
    /// Whether the attempt is carried out: the game has not ended, and the
    /// action is not refused.
    pub open spec fn made(self, step: Step) -> bool {
        !self.lost() && match step {
            Step::Clue { to, clue, elapsed } => self.clue_made(to, clue),
            Step::Play { pos, elapsed } => 0 <= pos < self.mover().cards.len(),
            Step::Discard { pos, elapsed } => self.clues < 8 && 0 <= pos
                < self.mover().cards.len(),
        }
    }

    /// The game after the attempt: changed by the action where it is
    /// carried out, and as before where it is not.
    pub open spec fn after(self, step: Step) -> GameView {
        if !self.made(step) {
            self
        } else {
            match step {
                Step::Clue { to, clue, elapsed } => self.after_clue(to, clue, elapsed),
                Step::Play { pos, elapsed } => self.after_play(pos, elapsed),
                Step::Discard { pos, elapsed } => self.after_discard(pos, elapsed),
            }
        }
    }

    /// The game after a sequence of attempts, first to last.
    pub open spec fn after_all(self, steps: Seq<Step>) -> GameView
        decreases steps.len(),
    {
        if steps.len() == 0 {
            self
        } else {
            self.after_all(steps.drop_last()).after(steps.last())
        }
    }

    /// Whether every attempt of the sequence is carried out.
    pub open spec fn all_made(self, steps: Seq<Step>) -> bool
        decreases steps.len(),
    {
        steps.len() == 0 || (self.all_made(steps.drop_last()) && self.after_all(
            steps.drop_last(),
        ).made(steps.last()))
    }

    /// The rank that a color's stack needs next.
    pub open spec fn needed(self, c: Color) -> int {
        self.stack_rank(c) + 1
    }

    /// Whether the player at hand index `i` has had a turn since the deck
    /// ran out.
    pub open spec fn had_final_turn(self, i: int) -> bool {
        self.last_turns matches Some(k) && exists|j: int|
            1 <= j <= k && #[trigger] self.seat_before(j) == i
    }

    /// The hand index of the player who moved `j` turns ago, for `j` up to
    /// the number of players.
    pub open spec fn seat_before(self, j: int) -> int {
        ((self.turn + self.players() - j) as int) % (self.players() as int)
    }

    /// Whether every hand has the size it should: full, or one short for a
    /// player who has had a turn since the deck ran out.
    pub open spec fn hands_sized(self) -> bool {
        forall|i: int|
            0 <= i < self.hands.len() ==> {
                let size = (#[trigger] self.hands[i]).cards.len();
                if self.had_final_turn(i) {
                    hand_size(self.players()) - 1 <= size <= hand_size(self.players())
                } else {
                    size == hand_size(self.players())
                }
            }
    }
}

/// A new game of two to five players with a deck of fifty cards: five cards
/// in each hand for two or three players and four for more, eight clue
/// tokens, three fuses, and the rest of the cards in the deck.
pub proof fn new_game(players: Seq<Seq<char>>, deck: Seq<CardView>)
    requires
        2 <= players.len() <= 5,
        deck.len() == 50,
    ensures
        initial(players, deck, 50).wf(),
        initial(players, deck, 50).hands_sized(),
        initial(players, deck, 50).hands.len() == players.len(),
        forall|i: int|
            0 <= i < players.len() ==> (#[trigger] initial(players, deck, 50).hands[i]).cards.len()
                == if players.len() <= 3 {
                5int
            } else {
                4int
            },
        initial(players, deck, 50).clues == 8,
        initial(players, deck, 50).lives == 3,
        initial(players, deck, 50).deck.len() == 50 - players.len() * hand_size(players.len()),
        initial(players, deck, 50).turn == 0,
        initial(players, deck, 50).score() == 0,
        !initial(players, deck, 50).over(),
{
    let g = initial(players, deck, 50);
    assert(players.len() * hand_size(players.len()) <= 20);
    assert(!g.had_final_turn(0)) by {
        assert(g.last_turns is None);
    }
}

/// An attempt at an action leaves a well-formed game well formed.
pub proof fn step_keeps_wf(g: GameView, step: Step)
    requires
        g.wf(),
    ensures
        g.after(step).wf(),
{
    if g.made(step) {
        match step {
            Step::Clue { to, clue, elapsed } => after_clue_wf(g, to, clue, elapsed),
            Step::Play { pos, elapsed } => after_play_wf(g, pos, elapsed),
            Step::Discard { pos, elapsed } => after_discard_wf(g, pos, elapsed),
        }
    }
}

/// Whatever is attempted, in whatever order, the clue tokens stay between
/// zero and eight and the fuses between zero and three.
pub proof fn tokens_stay_in_range(g: GameView, steps: Seq<Step>)
    requires
        g.wf(),
    ensures
        g.after_all(steps).wf(),
        0 <= g.after_all(steps).clues <= 8,
        0 <= g.after_all(steps).lives <= 3,
    decreases steps.len(),
{
    if steps.len() > 0 {
        tokens_stay_in_range(g, steps.drop_last());
        step_keeps_wf(g.after_all(steps.drop_last()), steps.last());
    }
}

/// Who moved `j` turns before the turn now moved `j + 1` turns before the
/// next.
proof fn seat_shift(g: GameView, next: GameView, j: int)
    requires
        2 <= g.players() <= 5,
        g.turn < g.players(),
        next.players() == g.players(),
        next.turn == g.next_turn(),
        0 <= j < g.players(),
    ensures
        next.seat_before(j + 1) == g.seat_before(j),
        g.seat_before(0) == g.turn,
        1 <= j ==> g.seat_before(j) != g.turn,
{
    let n = g.players();
    if n == 2 {
    } else if n == 3 {
    } else if n == 4 {
    } else {
    }
}

/// Every hand keeps the size it should have through every action: full
/// while the deck has cards, and at most one card short once the player
/// has had a turn after the deck ran out.
pub proof fn step_keeps_hand_sizes(g: GameView, step: Step)
    requires
        g.wf(),
        g.hands_sized(),
    ensures
        g.after(step).hands_sized(),
{
    if g.made(step) {
        let next = g.after(step);
        let n = g.players();
        let size = hand_size(n);
        let t = g.turn as int;
        if step is Clue {
            let seat = choose|i: int| crate::model::is_seat(g.hands, step->to, i);
            assert(crate::model::is_seat(g.hands, step->to, seat));
        }
        assert(next.players() == n);
        assert(next.turn == g.next_turn());
        match g.last_turns {
            None => {
                assert forall|i: int| 0 <= i < n implies !g.had_final_turn(i) by {}
                assert forall|i: int| 0 <= i < n implies !next.had_final_turn(i) by {
                    if next.last_turns is Some {
                        assert(next.last_turns == Some(0nat));
                    }
                }
                assert forall|i: int| 0 <= i < next.hands.len() implies (#[trigger] next.hands[i]).cards.len()
                    == size by {
                    assert(g.hands[i].cards.len() == size);
                }
            },
            Some(k) => {
                assert(k < n);
                assert(next.last_turns == Some(k + 1));
                assert(!g.had_final_turn(t)) by {
                    if g.had_final_turn(t) {
                        let j = choose|j: int| 1 <= j <= k && #[trigger] g.seat_before(j) == t;
                        seat_shift(g, next, j);
                    }
                }
                seat_shift(g, next, 0);
                assert(next.seat_before(1) == t);
                assert(next.had_final_turn(t));
                assert forall|i: int| 0 <= i < next.hands.len() implies {
                    let len = (#[trigger] next.hands[i]).cards.len();
                    if next.had_final_turn(i) {
                        size - 1 <= len <= size
                    } else {
                        len == size
                    }
                } by {
                    let before = g.hands[i].cards.len();
                    if i == t {
                        assert(before == size);
                    } else {
                        assert(next.hands[i].cards.len() == before);
                        if g.had_final_turn(i) {
                            let j = choose|j: int| 1 <= j <= k && #[trigger] g.seat_before(j) == i;
                            seat_shift(g, next, j);
                            assert(next.seat_before(j + 1) == i);
                            assert(next.had_final_turn(i));
                        } else if next.had_final_turn(i) {
                            let j = choose|j: int|
                                1 <= j <= k + 1 && #[trigger] next.seat_before(j) == i;
                            if j > 1 {
                                seat_shift(g, next, j - 1);
                                assert(g.seat_before(j - 1) == i);
                                assert(g.had_final_turn(i));
                            }
                        }
                    }
                }
            },
        }
    }
}

/// Whatever is attempted, in whatever order, every hand keeps the size it
/// should have.
pub proof fn hand_sizes_hold(g: GameView, steps: Seq<Step>)
    requires
        g.wf(),
        g.hands_sized(),
    ensures
        g.after_all(steps).wf(),
        g.after_all(steps).hands_sized(),
    decreases steps.len(),
{
    if steps.len() > 0 {
        hand_sizes_hold(g, steps.drop_last());
        step_keeps_wf(g.after_all(steps.drop_last()), steps.last());
        step_keeps_hand_sizes(g.after_all(steps.drop_last()), steps.last());
    }
}

/// No action changes who plays or in which order.
pub proof fn step_keeps_names(g: GameView, step: Step)
    requires
        g.wf(),
    ensures
        g.after(step).names() == g.names(),
        g.after_check().names() == g.names(),
{
    if g.made(step) {
        if step is Clue {
            let seat = choose|i: int| crate::model::is_seat(g.hands, step->to, i);
            assert(crate::model::is_seat(g.hands, step->to, seat));
        }
        assert(g.after(step).names() =~= g.names());
    }
}

/// An action that is carried out passes the turn to the next player in
/// order, and the first player follows the last.
pub proof fn turn_passes_on(g: GameView, step: Step)
    requires
        g.wf(),
        g.made(step),
    ensures
        g.after(step).turn == ((g.turn + 1) as int) % (g.players() as int),
        g.after(step).players() == g.players(),
{
}

/// The score is the sum of five ranks of at most five each.
pub proof fn score_in_range(g: GameView)
    ensures
        0 <= g.score() <= 25,
        g.score() == 25 <==> forall|c: Color| #[trigger] g.stack_rank(c) == 5,
{
    assert forall|c: Color| 0 <= #[trigger] g.stack_rank(c) <= 5 by {}
    if g.score() == 25 {
        assert forall|c: Color| #[trigger] g.stack_rank(c) == 5 by {
            assert(g.stack_rank(Color::Red) <= 5);
            assert(g.stack_rank(Color::Green) <= 5);
            assert(g.stack_rank(Color::White) <= 5);
            assert(g.stack_rank(Color::Blue) <= 5);
            assert(g.stack_rank(Color::Yellow) <= 5);
        }
    }
}

/// A card whose rank is one above its color's stack goes on the stack and
/// costs nothing. Any other card costs exactly one fuse, leaves the stacks
/// as they were and is found in the discard pile of its color afterwards.
pub proof fn play_succeeds_or_costs_a_fuse(g: GameView, pos: int, elapsed: Option<u64>)
    requires
        g.wf(),
        !g.lost(),
        0 <= pos < g.mover().cards.len(),
    ensures
        ({
            let card = g.mover().cards[pos];
            let after = g.after_play(pos, elapsed);
            if card.number.rank() == g.stack_rank(card.color) + 1 {
                &&& after.played.dom().contains(card.color)
                &&& after.played[card.color] == card.number
                &&& after.stack_rank(card.color) == g.stack_rank(card.color) + 1
                &&& forall|c: Color| c != card.color ==> after.stack_rank(c) == g.stack_rank(c)
                &&& after.score() == g.score() + 1
                &&& after.lives == g.lives
                &&& after.discard == g.discard
            } else {
                &&& after.lives == g.lives - 1
                &&& after.played == g.played
                &&& after.score() == g.score()
                &&& after.clues == g.clues
                &&& after.pile(card.color).len() == g.pile(card.color).len() + 1
                &&& after.pile(card.color).contains(card)
                &&& forall|c: Color| c != card.color ==> after.pile(c) == g.pile(c)
            }
        }),
        g.play_result(pos) != Err::<(), PlayError>(PlayError::NoSuchCard),
        g.play_result(pos) == Err::<(), PlayError>(PlayError::GameOver) <==> g.after_play(
            pos,
            elapsed,
        ).lost(),
{
    let card = g.mover().cards[pos];
    let after = g.after_play(pos, elapsed);
    if card.number.rank() == g.stack_rank(card.color) + 1 {
        assert forall|c: Color| c != card.color implies after.stack_rank(c) == g.stack_rank(c) by {}
    } else {
        let pile = g.pile(card.color);
        ins_pos_bounds(pile, card.number.rank());
        let at = crate::model::ins_pos(pile, card.number.rank());
        assert(insert_sorted(pile, card)[at] == card);
        assert(after.pile(card.color) == insert_sorted(pile, card));
    }
}

/// A clue that points at none of the target's cards is refused for that
/// reason, provided a token is there and the target is another player of
/// the game.
pub proof fn clue_without_match_is_refused(g: GameView, to: Seq<char>, clue: Clue)
    requires
        g.wf(),
        g.clues > 0,
        seated(g.hands, to),
        g.mover().player != to,
        count_touched(g.hands[seat_of(g.hands, to)].cards, clue) == 0,
    ensures
        g.clue_result(to, clue) == Err::<usize, ClueError>(ClueError::NoMatchingCards),
        !g.clue_made(to, clue),
        forall|elapsed: Option<u64>| g.after(Step::Clue { to, clue, elapsed }) == g,
{
}

/// A clue that is given costs one token, leaves the fuses, the stacks, the
/// discard pile and the deck alone, and changes no hand but the target's,
/// where it only adds to the logs of the cards it points at.
pub proof fn clue_only_adds_to_logs(g: GameView, to: Seq<char>, clue: Clue, elapsed: Option<u64>)
    requires
        g.wf(),
        !g.lost(),
        g.clue_made(to, clue),
    ensures
        ({
            let after = g.after_clue(to, clue, elapsed);
            let seat = seat_of(g.hands, to);
            &&& after.clues == g.clues - 1
            &&& after.lives == g.lives
            &&& after.played == g.played
            &&& after.discard == g.discard
            &&& after.deck == g.deck
            &&& after.hands.len() == g.hands.len()
            &&& forall|i: int| 0 <= i < g.hands.len() && i != seat ==> after.hands[i] == g.hands[i]
            &&& after.hands[seat].cards.len() == g.hands[seat].cards.len()
            &&& forall|j: int|
                0 <= j < g.hands[seat].cards.len() ==> (#[trigger] after.hands[seat].cards[j])
                    == if g.hands[seat].cards[j].touched_by(clue) {
                    g.hands[seat].cards[j].with_clue(g.turn as usize, clue)
                } else {
                    g.hands[seat].cards[j]
                }
        }),
{
    let seat = choose|i: int| crate::model::is_seat(g.hands, to, i);
    assert(crate::model::is_seat(g.hands, to, seat));
}

/// A Five that goes on its stack brings back exactly one clue token,
/// unless all eight are there already; then nothing changes.
pub proof fn five_refunds_a_clue(g: GameView, pos: int, elapsed: Option<u64>)
    requires
        g.wf(),
        !g.lost(),
        0 <= pos < g.mover().cards.len(),
        g.accepts(g.mover().cards[pos]),
    ensures
        g.mover().cards[pos].number == Number::Five ==> g.after_play(pos, elapsed).clues == if g.clues
            < 8 {
            g.clues + 1
        } else {
            8
        },
        g.mover().cards[pos].number != Number::Five ==> g.after_play(pos, elapsed).clues
            == g.clues,
{
}

/// A discard is refused for want of room exactly when all eight clue
/// tokens are there. Otherwise a discard of a card that is there is carried
/// out, brings back one token and puts the card on the pile of its color.
pub proof fn discard_needs_room(g: GameView, pos: int, elapsed: Option<u64>)
    requires
        g.wf(),
        !g.lost(),
    ensures
        g.discard_result(pos) == Err::<(), DiscardError>(DiscardError::MaxClues) <==> g.clues == 8,
        g.clues == 8 ==> g.after(Step::Discard { pos, elapsed }) == g,
        g.clues < 8 && 0 <= pos < g.mover().cards.len() ==> {
            let card = g.mover().cards[pos];
            let after = g.after_discard(pos, elapsed);
            &&& g.made(Step::Discard { pos, elapsed })
            &&& (g.discard_result(pos) == Ok::<(), DiscardError>(()) || g.discard_result(pos)
                == Err::<(), DiscardError>(DiscardError::GameOver))
            &&& after.clues == g.clues + 1
            &&& after.lives == g.lives
            &&& after.played == g.played
            &&& after.pile(card.color).len() == g.pile(card.color).len() + 1
            &&& after.pile(card.color).contains(card)
        },
{
    if g.clues < 8 && 0 <= pos < g.mover().cards.len() {
        let card = g.mover().cards[pos];
        let pile = g.pile(card.color);
        ins_pos_bounds(pile, card.number.rank());
        let at = crate::model::ins_pos(pile, card.number.rank());
        assert(insert_sorted(pile, card)[at] == card);
        assert(g.after_discard(pos, elapsed).pile(card.color) == insert_sorted(pile, card));
    }
}

/// The play or discard that takes the last card of the deck starts the
/// final round; a clue never does, and while cards are left nothing does.
pub proof fn last_card_starts_final_round(g: GameView, step: Step)
    requires
        g.wf(),
        g.last_turns is None,
        g.made(step),
    ensures
        g.after(step).last_turns == if !(step is Clue) && g.deck.len() == 1 {
            Some(0nat)
        } else {
            None
        },
{
}

/// Once the deck has run out, each action that is carried out counts one
/// turn of the final round, whatever the action.
pub proof fn final_round_counts_turns(g: GameView, step: Step)
    requires
        g.wf(),
        g.last_turns is Some,
        g.made(step),
    ensures
        g.after(step).last_turns == Some(g.last_turns->0 + 1),
{
}

/// The final round lasts exactly as many turns as there are players: after
/// fewer turns than that it has not ended the game, the turn that completes
/// it is told to be the last, and after it the game is over.
pub proof fn final_round_lasts_one_turn_each(g: GameView, steps: Seq<Step>)
    requires
        g.wf(),
        g.last_turns == Some(0nat),
        g.all_made(steps),
    ensures
        g.after_all(steps).wf(),
        g.after_all(steps).last_turns == Some(steps.len()),
        steps.len() <= g.players(),
        g.after_all(steps).players() == g.players(),
        steps.len() + 1 == g.players() <==> g.after_all(steps).closes_round(),
        steps.len() == g.players() ==> g.after_all(steps).lost(),
        steps.len() < g.players() ==> g.after_all(steps).last_turns != Some(g.players()),
    decreases steps.len(),
{
    if steps.len() > 0 {
        let before = g.after_all(steps.drop_last());
        final_round_lasts_one_turn_each(g, steps.drop_last());
        step_keeps_wf(before, steps.last());
        final_round_counts_turns(before, steps.last());
    }
}

/// The check for an unwinnable game says yes at most once: when it has
/// said yes, it says no ever after, whatever is done in between.
pub proof fn unwinnable_is_told_once(g: GameView, steps: Seq<Step>)
    requires
        g.becomes_unwinnable(),
    ensures
        g.after_check().is_unwinnable,
        !g.after_check().becomes_unwinnable(),
        g.after_check().after_all(steps).is_unwinnable,
        !g.after_check().after_all(steps).becomes_unwinnable(),
{
    flag_stays(g.after_check(), steps);
}

/// No action takes back that a game was found unwinnable.
pub proof fn flag_stays(g: GameView, steps: Seq<Step>)
    requires
        g.is_unwinnable,
    ensures
        g.after_all(steps).is_unwinnable,
        !g.after_all(steps).becomes_unwinnable(),
        g.after_all(steps).after_check() == g.after_all(steps),
    decreases steps.len(),
{
    if steps.len() > 0 {
        flag_stays(g, steps.drop_last());
    }
}

/// A game not yet found unwinnable is found so as soon as the discard pile
/// holds every copy of a rank that a color's stack needs next or has
/// behind it.
pub proof fn needed_rank_gone_is_unwinnable(g: GameView, c: Color, n: Number)
    requires
        !g.is_unwinnable,
        count_rank(g.pile(c), n) >= n.copies(),
        n.rank() <= g.needed(c),
    ensures
        g.becomes_unwinnable(),
{
}

/// In a game not yet found unwinnable, in which no rank above the one
/// that its color's stack needs next has lost every copy, the check says
/// yes exactly when for some color the discard pile holds every copy of
/// some rank that is not above the one that the stack needs next.
pub proof fn unwinnable_iff_needed_rank_gone(g: GameView)
    requires
        !g.is_unwinnable,
        forall|c: Color, n: Number|
            count_rank(#[trigger] g.pile(c), n) >= #[trigger] n.copies() ==> n.rank() <= g.needed(
                c,
            ),
    ensures
        g.becomes_unwinnable() <==> exists|c: Color, n: Number|
            count_rank(#[trigger] g.pile(c), n) >= #[trigger] n.copies() && n.rank() <= g.needed(
                c,
            ),
{
    if g.becomes_unwinnable() {
        let (c, n) = choose|c: Color, n: Number|
            count_rank(#[trigger] g.pile(c), n) >= #[trigger] n.copies();
        assert(count_rank(g.pile(c), n) >= n.copies() && n.rank() <= g.needed(c));
    }
}

} // verus!
