//! The three actions a player can take, and the check for a game that can
//! no longer be won.

use crate::cards::{count_touched, views, Card, CardView, Hand};
use crate::clock;
use crate::game::{discard_map, hand_views, played_map, Game, Move};
use crate::model::{
    count_rank, count_rank_absent, count_rank_prefix, ins_pos, insert_sorted,
    insert_sorted_keeps_sorted, is_seat, mention, seat_of, seat_unique, seated, sorted,
};
use crate::text::{decimal, dur};
use crate::values::{Clue, ClueError, Color, DiscardError, Number, PlayError};
use vstd::prelude::*;

verus! {

/// A player's name as it is written in a message.
pub fn mention_of(name: &str) -> (s: String)
    ensures
        s@ == mention(name@),
{
    let mut s = String::from_str("<@");
    s.append(name);
    s.append(">");
    s
}

/// The cards of one color's pile, whether or not the pile has any.
pub open spec fn pile_at(discard: Seq<Vec<Card>>, c: Color) -> Seq<CardView> {
    views(discard[c.ord()]@)
}

/// Puts a card on the discard pile of its color, behind the last card of
/// a lower rank.
pub(crate) fn put_on_pile(discard: &mut Vec<Vec<Card>>, card: Card)
    requires
        old(discard)@.len() == 5,
    ensures
        final(discard)@.len() == 5,
        discard_map(final(discard)@) == discard_map(old(discard)@).insert(
            card@.color,
            insert_sorted(pile_at(old(discard)@, card@.color), card@),
        ),
{
    let idx = card.color.index();
    let rank = card.number.as_usize();
    let mut pos: usize = discard[idx].len();
    let ghost pile = views(discard@[idx as int]@);
    assert(pile.subrange(0, pos as int) =~= pile);
    while pos > 0 && discard[idx][pos - 1].number.as_usize() >= rank
        invariant
            idx < 5,
            discard@.len() == 5,
            discard == old(discard),
            pile == views(discard@[idx as int]@),
            pos <= pile.len(),
            ins_pos(pile, rank as int) == ins_pos(pile.subrange(0, pos as int), rank as int),
        decreases pos,
    {
        proof {
            let upto = pile.subrange(0, pos as int);
            assert(upto.last() == pile[pos - 1]);
            assert(upto.drop_last() =~= pile.subrange(0, pos - 1));
        }
        pos = pos - 1;
    }
    proof {
        let upto = pile.subrange(0, pos as int);
        if pos > 0 {
            assert(upto.last() == pile[pos - 1]);
        }
        assert(pile.subrange(0, pile.len() as int) =~= pile);
        assert(ins_pos(pile, rank as int) == pos);
    }
    let ghost shown = card@;
    discard[idx].insert(pos, card);
    proof {
        assert(views(discard@[idx as int]@) =~= insert_sorted(pile, shown));
        let want = discard_map(old(discard)@).insert(shown.color, insert_sorted(pile, shown));
        assert forall|c: Color| #[trigger] discard_map(discard@).dom().contains(c) == want.dom().contains(c) by {
            if c.ord() != idx {
                assert(discard@[c.ord()] == old(discard)@[c.ord()]);
            }
        }
        assert forall|c: Color| #[trigger] want.dom().contains(c) implies discard_map(discard@)[c] == want[c] by {
            if c.ord() != idx {
                assert(discard@[c.ord()] == old(discard)@[c.ord()]);
            }
        }
        assert(discard_map(discard@) =~= want);
    }
}

/// Passes the turn to the next player and moves the final-round countdown:
/// one more once it runs, started when the deck has just run out. Returns
/// whether the final round is now complete.
pub(crate) fn pass_turn(
    turn: &mut usize,
    last_turns: &mut Option<usize>,
    players: usize,
    deck_empty: bool,
) -> (ended: bool)
    requires
        2 <= players <= 5,
        *old(turn) < players,
        *old(last_turns) matches Some(k) ==> k < players,
    ensures
        *final(turn) == (*old(turn) + 1) % (players as int),
        *final(last_turns) == match *old(last_turns) {
            Some(k) => Some((k + 1) as usize),
            None => if deck_empty {
                Some(0usize)
            } else {
                None
            },
        },
        ended == (*old(last_turns) matches Some(k) && k + 1 == players),
{
    *turn = (*turn + 1) % players;
    match *last_turns {
        Some(k) => {
            *last_turns = Some(k + 1);
            k + 1 == players
        },
        None => {
            if deck_empty {
                *last_turns = Some(0);
            }
            false
        },
    }
}

/// What a move's text says of the replacement card: the card at the right
/// end of the hand, or nothing once the deck has run out.
pub(crate) fn drew(hand: &Hand, deck_ran_out: bool) -> (s: String)
    requires
        !deck_ran_out ==> hand@.cards.len() > 0,
    ensures
        s@ == crate::model::drew_text(
            if deck_ran_out {
                None
            } else {
                Some(hand@.cards.last())
            },
        ),
{
    if deck_ran_out {
        String::new()
    } else {
        let mut s = String::from_str(", and then drew a ");
        let last = hand.cards[hand.cards.len() - 1].to_string();
        s.append(last.as_str());
        s
    }
}

impl Game {
    /// Has the current player play the card at position `card` (counted
    /// from the left, from 0), `elapsed` seconds after the move before.
    ///
    /// The card goes on its color's stack if its rank is one above the
    /// stack's; a Five that goes on returns a clue token, up to the cap. Any
    /// other card costs a fuse and goes to the discard pile. Either way the
    /// player draws a replacement if the deck has one, and the turn passes.
    /// `GameOver` says that the move was made and ended the game.
    pub fn play_after(&mut self, card: usize, elapsed: Option<u64>) -> (r: Result<(), PlayError>)
        requires
            old(self).wf(),
            !old(self)@.lost(),
        ensures
            final(self).wf(),
            r == old(self)@.play_result(card as int),
            r == Err::<(), PlayError>(PlayError::NoSuchCard) ==> final(self)@ == old(self)@,
            r != Err::<(), PlayError>(PlayError::NoSuchCard) ==> final(self)@ == old(self)@.after_play(
                card as int,
                elapsed,
            ),
    {
        proof {
            self.unfold();
        }
        let ghost before = self@;
        let players = self.hands.len();
        let hand = self.turn;
        let ghost pos = card as int;
        let taken = self.hands[hand].remove(card);
        let card = match taken {
            Some(card) => card,
            None => {
                proof {
                    assert(hand_views(self.hands@) =~= before.hands);
                    self.unfold();
                }
                return Err(PlayError::NoSuchCard);
            },
        };
        let deck_ran_out = self.last_turns.is_some();
        self.hands[hand].draw(&mut self.deck);
        proof {
            assert(hand_views(self.hands@) =~= before.hands_after_draw(pos));
            assert(self.deck.cards() == before.deck_after_draw());
        }

        let idx = card.color.index();
        let success = match self.played[idx] {
            None => card.number == Number::One,
            Some(top) => top != Number::Five && card.number == top.add(1),
        };
        assert(success == before.accepts(card@));
        if success {
            self.played[idx] = Some(card.number);
            if card.number == Number::Five && self.clues < 8 {
                self.clues = self.clues + 1;
            }
            proof {
                let want = before.played.insert(card@.color, card@.number);
                assert forall|c: Color| #[trigger]
                    played_map(self.played@).dom().contains(c) == want.dom().contains(c) by {
                    if c.ord() != idx {
                        assert(self.played@[c.ord()] == old(self).played@[c.ord()]);
                    }
                }
                assert(played_map(self.played@) =~= want);
            }
        }
        let mut did = mention_of(self.hands[hand].player.as_str());
        if success {
            did.append(" played a ");
        } else {
            did.append(" incorrectly played a ");
        }
        let face = card.to_string();
        did.append(face.as_str());
        did.append(" after ");
        let after = dur(elapsed);
        did.append(after.as_str());
        let mut for_others = did.clone();
        let drawn = drew(&self.hands[hand], deck_ran_out);
        for_others.append(drawn.as_str());
        self.last_move = Move::new(hand, did, for_others);

        if !success {
            self.lives = self.lives - 1;
            proof {
                insert_sorted_keeps_sorted(before.pile(card@.color), card@);
                assert(pile_at(self.discard@, card@.color) =~= before.pile(card@.color));
            }
            put_on_pile(&mut self.discard, card);
        }
        let deck_empty = self.deck.is_empty();
        let ended = pass_turn(&mut self.turn, &mut self.last_turns, players, deck_empty);
        proof {
            self.unfold();
            let want = before.after_play(pos, elapsed);
            assert(self@.hands == want.hands);
            assert(self@.deck == want.deck);
            assert(self@.played == want.played);
            assert(self@.discard == want.discard);
            assert(self@.last_move == want.last_move);
            assert(self@.last_turns == want.last_turns);
            assert(self@.turn == want.turn);
            assert(self@ == want);
            crate::model::after_play_wf(before, pos, elapsed);
        }
        if self.lives == 0 || ended {
            Err(PlayError::GameOver)
        } else {
            Ok(())
        }
    }

    /// Has the current player play the card at position `card` (counted
    /// from the left, from 0). The time since the move before is read off
    /// the system clock; but for that, this is `play_after`.
    pub fn play(&mut self, card: usize) -> (r: Result<(), PlayError>)
        requires
            old(self).wf(),
            !old(self)@.lost(),
        ensures
            final(self).wf(),
            r == old(self)@.play_result(card as int),
            r == Err::<(), PlayError>(PlayError::NoSuchCard) ==> final(self)@ == old(self)@,
            r != Err::<(), PlayError>(PlayError::NoSuchCard) ==> exists|elapsed: Option<u64>|
                final(self)@ == #[trigger] old(self)@.after_play(card as int, elapsed),
    {
        proof {
            self.unfold();
        }
        if card >= self.hands[self.turn].cards.len() {
            return Err(PlayError::NoSuchCard);
        }
        let elapsed = clock::restart(&mut self.last_move_at);
        proof {
            self.unfold();
        }
        self.play_after(card, elapsed)
    }

    /// Has the current player discard the card at position `card` (counted
    /// from the left, from 0), `elapsed` seconds after the move before.
    ///
    /// Not allowed while all eight clue tokens are there. The card goes to
    /// the discard pile, a clue token comes back, the player draws a
    /// replacement if the deck has one, and the turn passes. `GameOver` says
    /// that the move was made and ended the game.
    pub fn discard_after(&mut self, card: usize, elapsed: Option<u64>) -> (r: Result<
        (),
        DiscardError,
    >)
        requires
            old(self).wf(),
            !old(self)@.lost(),
        ensures
            final(self).wf(),
            r == old(self)@.discard_result(card as int),
            (r == Ok::<(), DiscardError>(()) || r == Err::<(), DiscardError>(
                DiscardError::GameOver,
            )) ==> final(self)@ == old(self)@.after_discard(card as int, elapsed),
            (r == Err::<(), DiscardError>(DiscardError::MaxClues) || r == Err::<(), DiscardError>(
                DiscardError::NoSuchCard,
            )) ==> final(self)@ == old(self)@,
    {
        proof {
            self.unfold();
        }
        let ghost before = self@;
        if self.clues == 8 {
            return Err(DiscardError::MaxClues);
        }
        let players = self.hands.len();
        let hand = self.turn;
        let ghost pos = card as int;
        let taken = self.hands[hand].remove(card);
        let card = match taken {
            Some(card) => card,
            None => {
                proof {
                    assert(hand_views(self.hands@) =~= before.hands);
                    self.unfold();
                }
                return Err(DiscardError::NoSuchCard);
            },
        };
        let deck_ran_out = self.last_turns.is_some();
        self.hands[hand].draw(&mut self.deck);
        proof {
            assert(hand_views(self.hands@) =~= before.hands_after_draw(pos));
            assert(self.deck.cards() == before.deck_after_draw());
        }

        let mut did = mention_of(self.hands[hand].player.as_str());
        did.append(" discarded a ");
        let face = card.to_string();
        did.append(face.as_str());
        did.append(" after ");
        let after = dur(elapsed);
        did.append(after.as_str());
        let mut for_others = did.clone();
        let drawn = drew(&self.hands[hand], deck_ran_out);
        for_others.append(drawn.as_str());
        self.last_move = Move::new(hand, did, for_others);

        proof {
            assert(pile_at(self.discard@, card@.color) =~= before.pile(card@.color));
        }
        put_on_pile(&mut self.discard, card);
        self.clues = self.clues + 1;
        let deck_empty = self.deck.is_empty();
        let ended = pass_turn(&mut self.turn, &mut self.last_turns, players, deck_empty);
        proof {
            self.unfold();
            let want = before.after_discard(pos, elapsed);
            assert(self@.hands == want.hands);
            assert(self@.deck == want.deck);
            assert(self@.discard == want.discard);
            assert(self@.last_move == want.last_move);
            assert(self@.last_turns == want.last_turns);
            assert(self@.turn == want.turn);
            assert(self@ == want);
            crate::model::after_discard_wf(before, pos, elapsed);
        }
        if ended {
            Err(DiscardError::GameOver)
        } else {
            Ok(())
        }
    }

    /// Has the current player discard the card at position `card` (counted
    /// from the left, from 0). The time since the move before is read off
    /// the system clock; but for that, this is `discard_after`.
    pub fn discard(&mut self, card: usize) -> (r: Result<(), DiscardError>)
        requires
            old(self).wf(),
            !old(self)@.lost(),
        ensures
            final(self).wf(),
            r == old(self)@.discard_result(card as int),
            (r == Ok::<(), DiscardError>(()) || r == Err::<(), DiscardError>(
                DiscardError::GameOver,
            )) ==> exists|elapsed: Option<u64>|
                final(self)@ == #[trigger] old(self)@.after_discard(card as int, elapsed),
            (r == Err::<(), DiscardError>(DiscardError::MaxClues) || r == Err::<(), DiscardError>(
                DiscardError::NoSuchCard,
            )) ==> final(self)@ == old(self)@,
    {
        proof {
            self.unfold();
        }
        if self.clues == 8 {
            return Err(DiscardError::MaxClues);
        }
        if card >= self.hands[self.turn].cards.len() {
            return Err(DiscardError::NoSuchCard);
        }
        let elapsed = clock::restart(&mut self.last_move_at);
        proof {
            self.unfold();
        }
        self.discard_after(card, elapsed)
    }

    /// The hand index of the first hand that belongs to the named player.
    pub fn seat(&self, name: &str) -> (seat: Option<usize>)
        ensures
            seat is Some == seated(self@.hands, name@),
            seat matches Some(i) ==> is_seat(self@.hands, name@, i as int) && i == seat_of(
                self@.hands,
                name@,
            ),
    {
        proof {
            self.unfold();
        }
        let wanted = String::from_str(name);
        let mut i: usize = 0;
        while i < self.hands.len()
            invariant
                i <= self.hands@.len(),
                wanted@ == name@,
                self@.hands == hand_views(self.hands@),
                forall|j: int| 0 <= j < i ==> (#[trigger] hand_views(self.hands@)[j]).player != name@,
            decreases self.hands.len() - i,
        {
            if self.hands[i].player == wanted {
                proof {
                    assert(is_seat(hand_views(self.hands@), name@, i as int));
                    seat_unique(
                        hand_views(self.hands@),
                        name@,
                        i as int,
                        seat_of(hand_views(self.hands@), name@),
                    );
                }
                return Some(i);
            }
            i = i + 1;
        }
        proof {
            if seated(hand_views(self.hands@), name@) {
                let j = choose|j: int| is_seat(hand_views(self.hands@), name@, j);
                assert(hand_views(self.hands@)[j].player != name@);
            }
        }
        None
    }

    /// Has the current player give the clue to the player named `to`,
    /// `elapsed` seconds after the move before.
    ///
    /// Needs a clue token, another player of that name, and a card in that
    /// player's hand that the clue points at. The clue is then written into
    /// the log of each such card, a token is spent and the turn passes; the
    /// count of those cards is returned. `GameOver` says that the clue was
    /// given and ended the game.
    pub fn clue_after(&mut self, to: &str, clue: Clue, elapsed: Option<u64>) -> (r: Result<
        usize,
        ClueError,
    >)
        requires
            old(self).wf(),
            !old(self)@.lost(),
        ensures
            final(self).wf(),
            r == old(self)@.clue_result(to@, clue),
            old(self)@.clue_made(to@, clue) ==> final(self)@ == old(self)@.after_clue(
                to@,
                clue,
                elapsed,
            ),
            !old(self)@.clue_made(to@, clue) ==> final(self)@ == old(self)@,
    {
        proof {
            self.unfold();
        }
        let ghost before = self@;
        if self.clues == 0 {
            return Err(ClueError::NotEnoughClues);
        }
        let wanted = String::from_str(to);
        assert(self.hands@[self.turn as int]@ == before.mover());
        if self.hands[self.turn].player == wanted {
            return Err(ClueError::NoSuchPlayer);
        }
        let seat = match self.seat(to) {
            Some(seat) => seat,
            None => {
                return Err(ClueError::NoSuchPlayer);
            },
        };
        proof {
            crate::cards::count_touched_bound(before.hands[seat as int].cards, clue);
        }
        let players = self.hands.len();
        let giver = self.turn;
        let ghost target_hand = before.hands[seat as int];
        assert(self.hands@[seat as int]@ == target_hand);
        assert(target_hand.cards.len() == self.hands@[seat as int].cards@.len());
        assert(self.hands@[giver as int]@ == before.mover());
        let count = match self.hands[seat].clue(giver, clue) {
            Ok(count) => count,
            Err(e) => {
                proof {
                    assert(hand_views(self.hands@) =~= before.hands);
                    self.unfold();
                }
                return Err(ClueError::NoMatchingCards);
            },
        };
        let ghost touched = count_touched(target_hand.cards, clue);
        assert(count == touched);
        assert(self.hands@[giver as int]@.player == before.mover().player);
        let actor = mention_of(self.hands[giver].player.as_str());
        assert(actor@ == mention(before.mover().player));
        let target = mention_of(to);
        let mut did = actor;
        did.append(" clued ");
        did.append(target.as_str());
        did.append(" that ");
        let number = decimal(count as u128);
        did.append(number.as_str());
        did.append(" ");
        if count == 1 {
            did.append("card is");
        } else {
            did.append("cards are");
        }
        did.append(" ");
        let what = clue.to_string();
        did.append(what.as_str());
        did.append(" after ");
        let after = dur(elapsed);
        did.append(after.as_str());
        let for_others = did.clone();
        self.last_move = Move::new(giver, did, for_others);
        self.clues = self.clues - 1;
        let ended = pass_turn(&mut self.turn, &mut self.last_turns, players, false);
        proof {
            self.unfold();
            let want = before.after_clue(to@, clue, elapsed);
            assert(self@.hands =~= want.hands);
            assert(self.last_move@.player == before.turn);
            assert(self.last_move@.for_public == crate::model::clue_text(
                before.mover().player,
                to@,
                touched,
                clue,
                elapsed,
            ));
            assert(self@.last_move == want.last_move);
            assert(self@.last_turns == want.last_turns);
            assert(self@ == want);
            crate::model::after_clue_wf(before, to@, clue, elapsed);
        }
        if ended {
            Err(ClueError::GameOver)
        } else {
            Ok(count)
        }
    }

    /// Has the current player give the clue to the player named `to`. The
    /// time since the move before is read off the system clock; but for
    /// that, this is `clue_after`.
    pub fn clue(&mut self, to: &str, clue: Clue) -> (r: Result<usize, ClueError>)
        requires
            old(self).wf(),
            !old(self)@.lost(),
        ensures
            final(self).wf(),
            r == old(self)@.clue_result(to@, clue),
            old(self)@.clue_made(to@, clue) ==> exists|elapsed: Option<u64>|
                final(self)@ == #[trigger] old(self)@.after_clue(to@, clue, elapsed),
            !old(self)@.clue_made(to@, clue) ==> final(self)@ == old(self)@,
    {
        proof {
            self.unfold();
        }
        if self.clues == 0 {
            return Err(ClueError::NotEnoughClues);
        }
        let wanted = String::from_str(to);
        assert(self.hands@[self.turn as int]@ == self@.mover());
        if self.hands[self.turn].player == wanted {
            return Err(ClueError::NoSuchPlayer);
        }
        let seat = match self.seat(to) {
            Some(seat) => seat,
            None => {
                return Err(ClueError::NoSuchPlayer);
            },
        };
        proof {
            assert(self.hands@[seat as int]@ == self@.hands[seat as int]);
        }
        if self.hands[seat].count_matches(clue) == 0 {
            return Err(ClueError::NoMatchingCards);
        }
        let elapsed = clock::restart(&mut self.last_move_at);
        proof {
            self.unfold();
        }
        self.clue_after(to, clue, elapsed)
    }

    /// Tells, once, that the game can no longer be won: some color has
    /// lost every copy of some rank to the discard pile. Once it has said
    /// so, it says no from then on.
    pub fn became_unwinnable(&mut self) -> (r: bool)
        requires
            old(self).wf(),
        ensures
            final(self).wf(),
            r == old(self)@.becomes_unwinnable(),
            final(self)@ == old(self)@.after_check(),
    {
        proof {
            self.unfold();
        }
        if self.is_unwinnable {
            return false;
        }
        let mut c: usize = 0;
        while c < 5
            invariant
                c <= 5,
                *self == *old(self),
                !self.is_unwinnable,
                self.wf(),
                forall|k: Color, n: Number|
                    k.ord() < c ==> count_rank(#[trigger] self@.pile(k), n) < #[trigger] n.copies(),
            decreases 5 - c,
        {
            proof {
                self.unfold();
                let k = Color::at(c as int);
                assert(self@.discard.dom().contains(k) ==> sorted(self@.discard[k]));
                assert(self@.pile(k) =~= views(self.discard@[c as int]@));
            }
            if pile_blocked(&self.discard[c]) {
                proof {
                    let k = Color::at(c as int);
                    let n = choose|n: Number|
                        count_rank(views(self.discard@[c as int]@), n) >= #[trigger] n.copies();
                    assert(count_rank(old(self)@.pile(k), n) >= n.copies());
                }
                self.is_unwinnable = true;
                proof {
                    self.unfold();
                    assert(self@.discard =~= old(self)@.discard);
                }
                return true;
            }
            proof {
                assert forall|k: Color, n: Number| k.ord() < c + 1 implies count_rank(
                    #[trigger] self@.pile(k),
                    n,
                ) < #[trigger] n.copies() by {
                    if k.ord() == c {
                        assert(k == Color::at(c as int));
                    }
                }
            }
            c = c + 1;
        }
        false
    }
}

/// Whether a pile, in increasing rank, holds every copy of some number:
/// found by walking it and counting each run of equal cards.
pub fn pile_blocked(pile: &Vec<Card>) -> (b: bool)
    requires
        sorted(views(pile@)),
    ensures
        b == exists|n: Number| count_rank(views(pile@), n) >= #[trigger] n.copies(),
{
    if pile.len() == 0 {
        assert(forall|n: Number| count_rank(views(pile@), n) == 0);
        assert(forall|n: Number| #[trigger] n.copies() > 0);
        return false;
    }
    let ghost cards = views(pile@);
    let mut number = pile[0].number;
    let mut n: usize = 0;
    let mut i: usize = 0;
    while i < pile.len()
        invariant
            cards == views(pile@),
            sorted(cards),
            0 < cards.len() == pile@.len(),
            i <= pile@.len(),
            n <= i,
            n == count_rank(cards.subrange(0, i as int), number),
            i == 0 ==> number == cards[0].number,
            i > 0 ==> number == cards[i - 1].number,
            forall|m: Number| count_rank(cards.subrange(0, i as int), m) < #[trigger] m.copies(),
        decreases pile.len() - i,
    {
        let ghost upto = cards.subrange(0, i as int);
        let ghost longer = cards.subrange(0, i + 1);
        proof {
            assert(longer.drop_last() =~= upto);
            assert(longer.last() == cards[i as int]);
        }
        let card = &pile[i];
        if card.number == number {
            n = n + 1;
        } else {
            proof {
                assert forall|j: int| 0 <= j < upto.len() implies (#[trigger] upto[j]).number
                    != card.number by {
                    assert(cards[j].number.rank() <= cards[i - 1].number.rank());
                    assert(cards[i - 1].number.rank() <= cards[i as int].number.rank());
                }
                count_rank_absent(upto, card.number);
            }
            number = card.number;
            n = 1;
        }
        if n == number.total() {
            proof {
                count_rank_prefix(cards, i + 1, number);
            }
            return true;
        }
        i = i + 1;
    }
    assert(cards.subrange(0, i as int) =~= cards);
    false
}

} // verus!
