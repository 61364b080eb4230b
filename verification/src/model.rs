//! The game as a mathematical state machine: the state of a game and what
//! each action makes of it.

use crate::cards::{clued, count_touched, CardView, HandView};
use crate::text::{decimal_text, dur_text};
use crate::values::{Clue, ClueError, Color, DiscardError, Number, PlayError};
use vstd::prelude::*;

verus! {

/// The description of the latest move, as two texts: one for a chosen
/// player, one for everybody else.
pub struct MoveView {
    pub player: nat,
    pub for_public: Seq<char>,
    pub for_others: Seq<char>,
}

impl MoveView {
    /// The text that the player at hand index `player` gets.
    pub open spec fn shown_to(self, player: nat) -> Seq<char> {
        if player == self.player {
            self.for_public
        } else {
            self.for_others
        }
    }
}

/// The state of a game.
pub struct GameView {
    /// The cards left in the deck, bottom first.
    pub deck: Seq<CardView>,
    /// How many cards the deck held at the start.
    pub deck_total: nat,
    /// The hands, in turn order.
    pub hands: Seq<HandView>,
    /// The top of each color's stack; a color without an entry has no card yet.
    pub played: Map<Color, Number>,
    /// The discarded cards of each color, in increasing rank; a color
    /// without an entry has none.
    pub discard: Map<Color, Seq<CardView>>,
    pub last_move: MoveView,
    pub clues: nat,
    pub lives: nat,
    /// The hand index of the player to move.
    pub turn: nat,
    /// How many turns were taken since the deck ran out, once it has.
    pub last_turns: Option<nat>,
    pub is_unwinnable: bool,
}

/// How many cards each player is dealt.
pub open spec fn hand_size(players: nat) -> nat {
    if players <= 3 {
        5
    } else {
        4
    }
}

/// A player's name as it is written in a message.
pub open spec fn mention(name: Seq<char>) -> Seq<char> {
    "<@"@ + name + ">"@
}

/// Whether the ranks never decrease from left to right.
pub open spec fn sorted(pile: Seq<CardView>) -> bool {
    forall|i: int, j: int|
        0 <= i < j < pile.len() ==> (#[trigger] pile[i]).number.rank() <= (
        #[trigger] pile[j]).number.rank()
}

/// Where a card of the given rank goes into a pile: behind the last card
/// of a lower rank.
pub open spec fn ins_pos(pile: Seq<CardView>, rank: int) -> int
    decreases pile.len(),
{
    if pile.len() == 0 {
        0
    } else if pile.last().number.rank() < rank {
        pile.len() as int
    } else {
        ins_pos(pile.drop_last(), rank)
    }
}

/// The pile with one more card, put where `ins_pos` says.
pub open spec fn insert_sorted(pile: Seq<CardView>, card: CardView) -> Seq<CardView> {
    pile.insert(ins_pos(pile, card.number.rank()), card)
}

/// How many cards of the pile have the given number.
pub open spec fn count_rank(pile: Seq<CardView>, number: Number) -> nat
    decreases pile.len(),
{
    if pile.len() == 0 {
        0
    } else {
        count_rank(pile.drop_last(), number) + if pile.last().number == number {
            1nat
        } else {
            0nat
        }
    }
}

/// What `ins_pos` finds: every card from there on has at least the given
/// rank, and in a sorted pile every card before it has a lower one.
pub proof fn ins_pos_bounds(pile: Seq<CardView>, rank: int)
    ensures
        0 <= ins_pos(pile, rank) <= pile.len(),
        forall|j: int|
            ins_pos(pile, rank) <= j < pile.len() ==> (#[trigger] pile[j]).number.rank() >= rank,
        sorted(pile) ==> forall|j: int|
            0 <= j < ins_pos(pile, rank) ==> (#[trigger] pile[j]).number.rank() < rank,
    decreases pile.len(),
{
    if pile.len() > 0 && pile.last().number.rank() >= rank {
        let front = pile.drop_last();
        ins_pos_bounds(front, rank);
        assert(forall|j: int| 0 <= j < front.len() ==> front[j] == pile[j]);
        assert forall|j: int| ins_pos(pile, rank) <= j < pile.len() implies (
        #[trigger] pile[j]).number.rank() >= rank by {
            if j < front.len() {
                assert(front[j].number.rank() >= rank);
            }
        }
        if sorted(pile) {
            assert(sorted(front)) by {
                assert forall|i: int, j: int| 0 <= i < j < front.len() implies (
                #[trigger] front[i]).number.rank() <= (#[trigger] front[j]).number.rank() by {
                    assert(pile[i].number.rank() <= pile[j].number.rank());
                }
            }
            assert forall|j: int| 0 <= j < ins_pos(pile, rank) implies (
            #[trigger] pile[j]).number.rank() < rank by {
                assert(front[j].number.rank() < rank);
            }
        }
    } else if pile.len() > 0 {
        if sorted(pile) {
            assert forall|j: int| 0 <= j < pile.len() implies (#[trigger] pile[j]).number.rank()
                < rank by {
                if j < pile.len() - 1 {
                    assert(pile[j].number.rank() <= pile[pile.len() - 1].number.rank());
                }
            }
        }
    }
}

/// A sorted pile stays sorted when a card is put into it.
pub proof fn insert_sorted_keeps_sorted(pile: Seq<CardView>, card: CardView)
    requires
        sorted(pile),
    ensures
        sorted(insert_sorted(pile, card)),
        insert_sorted(pile, card).len() == pile.len() + 1,
{
    let rank = card.number.rank();
    let p = ins_pos(pile, rank);
    ins_pos_bounds(pile, rank);
    let out = insert_sorted(pile, card);
    assert forall|i: int, j: int| 0 <= i < j < out.len() implies (#[trigger] out[i]).number.rank()
        <= (#[trigger] out[j]).number.rank() by {
        if i < p {
            assert(out[i] == pile[i]);
            if j == p {
            } else if j < p {
                assert(out[j] == pile[j]);
            } else {
                assert(out[j] == pile[j - 1]);
                assert(pile[j - 1].number.rank() >= rank);
            }
        } else if i == p {
            assert(out[j] == pile[j - 1]);
        } else {
            assert(out[i] == pile[i - 1]);
            assert(out[j] == pile[j - 1]);
        }
    }
}

/// Whether `i` is the first hand that belongs to the named player.
pub open spec fn is_seat(hands: Seq<HandView>, name: Seq<char>, i: int) -> bool {
    &&& 0 <= i < hands.len()
    &&& hands[i].player == name
    &&& forall|j: int| 0 <= j < i ==> (#[trigger] hands[j]).player != name
}

/// Whether some hand belongs to the named player.
pub open spec fn seated(hands: Seq<HandView>, name: Seq<char>) -> bool {
    exists|i: int| is_seat(hands, name, i)
}

/// The first hand that belongs to the named player.
pub open spec fn seat_of(hands: Seq<HandView>, name: Seq<char>) -> int {
    choose|i: int| is_seat(hands, name, i)
}

/// The text of a clue move.
pub open spec fn clue_text(
    actor: Seq<char>,
    to: Seq<char>,
    count: nat,
    clue: Clue,
    elapsed: Option<u64>,
) -> Seq<char> {
    mention(actor) + " clued "@ + mention(to) + " that "@ + decimal_text(count) + " "@ + (if count
        == 1 {
        "card is"@
    } else {
        "cards are"@
    }) + " "@ + clue.text() + " after "@ + dur_text(elapsed)
}

/// The text of a play, successful or not, without what was drawn.
pub open spec fn play_text(actor: Seq<char>, card: CardView, success: bool, elapsed: Option<u64>) -> Seq<
    char,
> {
    mention(actor) + (if success {
        " played a "@
    } else {
        " incorrectly played a "@
    }) + card.text() + " after "@ + dur_text(elapsed)
}

/// The text of a discard, without what was drawn.
pub open spec fn discard_text(actor: Seq<char>, card: CardView, elapsed: Option<u64>) -> Seq<char> {
    mention(actor) + " discarded a "@ + card.text() + " after "@ + dur_text(elapsed)
}

/// What a move's text says of the replacement card. Nothing, once the deck
/// has run out.
pub open spec fn drew_text(drawn: Option<CardView>) -> Seq<char> {
    match drawn {
        Some(card) => ", and then drew a "@ + card.text(),
        None => Seq::empty(),
    }
}

impl GameView {
    /// The number of players.
    pub open spec fn players(self) -> nat {
        self.hands.len()
    }

    /// The rank of the top card of a color's stack; 0 for an empty stack.
    pub open spec fn stack_rank(self, c: Color) -> int {
        if self.played.dom().contains(c) {
            self.played[c].rank()
        } else {
            0
        }
    }

    /// The score: the ranks of the five stacks added up.
    pub open spec fn score(self) -> int {
        self.stack_rank(Color::Red) + self.stack_rank(Color::Green) + self.stack_rank(
            Color::White,
        ) + self.stack_rank(Color::Blue) + self.stack_rank(Color::Yellow)
    }

    /// The discarded cards of a color.
    pub open spec fn pile(self, c: Color) -> Seq<CardView> {
        if self.discard.dom().contains(c) {
            self.discard[c]
        } else {
            Seq::empty()
        }
    }

    /// The names of the players, in turn order.
    pub open spec fn names(self) -> Seq<Seq<char>> {
        self.hands.map_values(|h: HandView| h.player)
    }

    /// The hand of the player to move.
    pub open spec fn mover(self) -> HandView {
        self.hands[self.turn as int]
    }

    /// What holds of every game that the actions produce.
    pub open spec fn wf(self) -> bool {
        &&& 2 <= self.players() <= 5
        &&& self.turn < self.players()
        &&& self.last_move.player < self.players()
        &&& self.clues <= 8
        &&& self.lives <= 3
        &&& self.deck.len() <= self.deck_total
        &&& match self.last_turns {
            Some(k) => k <= self.players() && self.deck.len() == 0,
            None => self.deck.len() > 0,
        }
        &&& forall|c: Color| #[trigger]
            self.discard.dom().contains(c) ==> {
                &&& self.discard[c].len() > 0
                &&& sorted(self.discard[c])
                &&& forall|i: int|
                    0 <= i < self.discard[c].len() ==> (#[trigger] self.discard[c][i]).color == c
            }
    }

    /// Whether the game has ended by running out of fuses or of final turns.
    pub open spec fn lost(self) -> bool {
        self.lives == 0 || self.last_turns == Some(self.players())
    }

    /// Whether the game has ended: lost, or won with every stack complete.
    pub open spec fn over(self) -> bool {
        self.lost() || self.score() == 25
    }

    /// Whether the next action is the last of the final round.
    pub open spec fn closes_round(self) -> bool {
        self.last_turns matches Some(k) && k + 1 == self.players()
    }

    /// The hand index of the player who moves after the current one.
    pub open spec fn next_turn(self) -> nat {
        (((self.turn + 1) as int) % (self.players() as int)) as nat
    }

    /// The countdown after an action that leaves `deck_left` cards in the
    /// deck: one more once it runs, started when the deck has just run out.
    pub open spec fn ticked(self, deck_left: nat) -> Option<nat> {
        match self.last_turns {
            Some(k) => Some(k + 1),
            None => if deck_left == 0 {
                Some(0nat)
            } else {
                None
            },
        }
    }

    /// Whether a card can go on its color's stack: its rank is one above
    /// the stack's.
    pub open spec fn accepts(self, card: CardView) -> bool {
        card.number.rank() == self.stack_rank(card.color) + 1
    }

    /// The discard pile with one more card.
    pub open spec fn discarded(self, card: CardView) -> Map<Color, Seq<CardView>> {
        self.discard.insert(card.color, insert_sorted(self.pile(card.color), card))
    }

    /// The deck after the mover's replacement draw.
    pub open spec fn deck_after_draw(self) -> Seq<CardView> {
        if self.deck.len() > 0 {
            self.deck.drop_last()
        } else {
            self.deck
        }
    }

    /// The hands after the mover gave up the card at `pos` and drew a
    /// replacement, if the deck had one.
    pub open spec fn hands_after_draw(self, pos: int) -> Seq<HandView> {
        let hand = self.mover().without(pos);
        self.hands.update(
            self.turn as int,
            if self.deck.len() > 0 {
                hand.with_card(self.deck.last())
            } else {
                hand
            },
        )
    }

    /// The replacement card as far as a move's text tells of it: the card
    /// at the right end of the mover's hand after the draw, unless the deck
    /// had run out before the move.
    pub open spec fn drawn(self, pos: int) -> Option<CardView> {
        if self.last_turns is None {
            Some(self.hands_after_draw(pos)[self.turn as int].cards.last())
        } else {
            None
        }
    }

    // Clue

    /// What a clue to the named player returns.
    pub open spec fn clue_result(self, to: Seq<char>, clue: Clue) -> Result<usize, ClueError> {
        if self.clues == 0 {
            Err(ClueError::NotEnoughClues)
        } else if self.mover().player == to || !seated(self.hands, to) {
            Err(ClueError::NoSuchPlayer)
        } else if count_touched(self.hands[seat_of(self.hands, to)].cards, clue) == 0 {
            Err(ClueError::NoMatchingCards)
        } else if self.closes_round() {
            Err(ClueError::GameOver)
        } else {
            Ok(count_touched(self.hands[seat_of(self.hands, to)].cards, clue) as usize)
        }
    }

    /// Whether a clue to the named player is made: it is legal, whether or
    /// not the game ends with it.
    pub open spec fn clue_made(self, to: Seq<char>, clue: Clue) -> bool {
        match self.clue_result(to, clue) {
            Ok(_) => true,
            Err(e) => e == ClueError::GameOver,
        }
    }

    /// The game after a clue to the named player that was made `elapsed`
    /// seconds after the move before.
    pub open spec fn after_clue(self, to: Seq<char>, clue: Clue, elapsed: Option<u64>) -> GameView {
        let seat = seat_of(self.hands, to);
        let count = count_touched(self.hands[seat].cards, clue);
        let did = clue_text(self.mover().player, to, count, clue, elapsed);
        GameView {
            hands: self.hands.update(seat, self.hands[seat].clued(self.turn as usize, clue)),
            last_move: MoveView { player: self.turn, for_public: did, for_others: did },
            clues: (self.clues - 1) as nat,
            turn: self.next_turn(),
            last_turns: match self.last_turns {
                Some(k) => Some(k + 1),
                None => None,
            },
            ..self
        }
    }

    // Play

    /// What playing the card at `pos` returns.
    pub open spec fn play_result(self, pos: int) -> Result<(), PlayError> {
        if !(0 <= pos < self.mover().cards.len()) {
            Err(PlayError::NoSuchCard)
        } else if (!self.accepts(self.mover().cards[pos]) && self.lives <= 1)
            || self.closes_round() {
            Err(PlayError::GameOver)
        } else {
            Ok(())
        }
    }

    /// The game after the mover played the card at `pos`, `elapsed` seconds
    /// after the move before.
    pub open spec fn after_play(self, pos: int, elapsed: Option<u64>) -> GameView {
        let card = self.mover().cards[pos];
        let success = self.accepts(card);
        let did = play_text(self.mover().player, card, success, elapsed);
        GameView {
            deck: self.deck_after_draw(),
            hands: self.hands_after_draw(pos),
            played: if success {
                self.played.insert(card.color, card.number)
            } else {
                self.played
            },
            discard: if success {
                self.discard
            } else {
                self.discarded(card)
            },
            last_move: MoveView {
                player: self.turn,
                for_public: did,
                for_others: did + drew_text(self.drawn(pos)),
            },
            clues: if success && card.number == Number::Five && self.clues < 8 {
                self.clues + 1
            } else {
                self.clues
            },
            lives: if success {
                self.lives
            } else {
                (self.lives - 1) as nat
            },
            turn: self.next_turn(),
            last_turns: self.ticked(self.deck_after_draw().len()),
            ..self
        }
    }

    // Discard

    /// What discarding the card at `pos` returns.
    pub open spec fn discard_result(self, pos: int) -> Result<(), DiscardError> {
        if self.clues == 8 {
            Err(DiscardError::MaxClues)
        } else if !(0 <= pos < self.mover().cards.len()) {
            Err(DiscardError::NoSuchCard)
        } else if self.closes_round() {
            Err(DiscardError::GameOver)
        } else {
            Ok(())
        }
    }

    /// The game after the mover discarded the card at `pos`, `elapsed`
    /// seconds after the move before.
    pub open spec fn after_discard(self, pos: int, elapsed: Option<u64>) -> GameView {
        let card = self.mover().cards[pos];
        let did = discard_text(self.mover().player, card, elapsed);
        GameView {
            deck: self.deck_after_draw(),
            hands: self.hands_after_draw(pos),
            discard: self.discarded(card),
            last_move: MoveView {
                player: self.turn,
                for_public: did,
                for_others: did + drew_text(self.drawn(pos)),
            },
            clues: self.clues + 1,
            turn: self.next_turn(),
            last_turns: self.ticked(self.deck_after_draw().len()),
            ..self
        }
    }

    // Unwinnable

    /// Whether some color has lost every copy of some rank to the discard
    /// pile, so that its stack can never be completed.
    pub open spec fn blocked(self) -> bool {
        exists|c: Color, n: Number| count_rank(#[trigger] self.pile(c), n) >= #[trigger] n.copies()
    }

    /// Whether the game is found unwinnable now and was not before.
    pub open spec fn becomes_unwinnable(self) -> bool {
        !self.is_unwinnable && self.blocked()
    }

    /// The game after it was checked for having become unwinnable.
    pub open spec fn after_check(self) -> GameView {
        GameView { is_unwinnable: self.is_unwinnable || self.blocked(), ..self }
    }
}

/// The hands at the start: each player in order takes cards off the top of
/// the deck until the hand is full.
pub open spec fn dealt_hands(players: Seq<Seq<char>>, deck: Seq<CardView>) -> Seq<HandView> {
    let size = hand_size(players.len());
    Seq::new(
        players.len(),
        |i: int|
            HandView {
                player: players[i],
                cards: Seq::new(size, |j: int| deck[deck.len() - 1 - i * size - j]),
            },
    )
}

/// The game at its start, for the given players and the given deck, which
/// held `deck_total` cards when it was made.
pub open spec fn initial(players: Seq<Seq<char>>, deck: Seq<CardView>, deck_total: nat) -> GameView {
    GameView {
        deck: deck.subrange(0, deck.len() - players.len() * hand_size(players.len())),
        deck_total,
        hands: dealt_hands(players, deck),
        played: Map::empty(),
        discard: Map::empty(),
        last_move: MoveView { player: 0, for_public: Seq::empty(), for_others: Seq::empty() },
        clues: 8,
        lives: 3,
        turn: 0,
        last_turns: None,
        is_unwinnable: false,
    }
}

/// A pile with one more card of its color is still a pile of that color,
/// in increasing rank.
pub proof fn discarded_wf(g: GameView, card: CardView)
    requires
        g.wf(),
    ensures
        (GameView { discard: g.discarded(card), ..g }).wf(),
{
    let pile = g.pile(card.color);
    let out = insert_sorted(pile, card);
    assert(sorted(pile));
    insert_sorted_keeps_sorted(pile, card);
    ins_pos_bounds(pile, card.number.rank());
    let after = GameView { discard: g.discarded(card), ..g };
    assert forall|c: Color| #[trigger] after.discard.dom().contains(c) implies {
        &&& after.discard[c].len() > 0
        &&& sorted(after.discard[c])
        &&& forall|i: int|
            0 <= i < after.discard[c].len() ==> (#[trigger] after.discard[c][i]).color == c
    } by {
        if c == card.color {
            assert forall|i: int| 0 <= i < out.len() implies (#[trigger] out[i]).color == c by {
                let p = ins_pos(pile, card.number.rank());
                if i < p {
                    assert(out[i] == pile[i]);
                } else if i > p {
                    assert(out[i] == pile[i - 1]);
                }
            }
        } else {
            assert(g.discard.dom().contains(c));
        }
    }
}

/// Playing a card makes a well-formed game of a well-formed game that is
/// not lost.
pub proof fn after_play_wf(g: GameView, pos: int, elapsed: Option<u64>)
    requires
        g.wf(),
        !g.lost(),
        0 <= pos < g.mover().cards.len(),
    ensures
        g.after_play(pos, elapsed).wf(),
{
    let card = g.mover().cards[pos];
    discarded_wf(g, card);
}

/// Discarding a card makes a well-formed game of a well-formed game that
/// is not lost and has room for a clue token.
pub proof fn after_discard_wf(g: GameView, pos: int, elapsed: Option<u64>)
    requires
        g.wf(),
        !g.lost(),
        g.clues < 8,
        0 <= pos < g.mover().cards.len(),
    ensures
        g.after_discard(pos, elapsed).wf(),
{
    let card = g.mover().cards[pos];
    discarded_wf(g, card);
}

/// No two hands are the first hand of the same player.
pub proof fn seat_unique(hands: Seq<HandView>, name: Seq<char>, i: int, j: int)
    requires
        is_seat(hands, name, i),
        is_seat(hands, name, j),
    ensures
        i == j,
{
    if i < j {
        assert(hands[i].player != name);
    } else if j < i {
        assert(hands[j].player != name);
    }
}

/// A clue that is made leaves a well-formed game well formed.
pub proof fn after_clue_wf(g: GameView, to: Seq<char>, clue: Clue, elapsed: Option<u64>)
    requires
        g.wf(),
        !g.lost(),
        g.clue_made(to, clue),
    ensures
        g.after_clue(to, clue, elapsed).wf(),
{
    let seat = choose|i: int| is_seat(g.hands, to, i);
    assert(is_seat(g.hands, to, seat));
}

/// A pile in which no card has the given number counts none of it.
pub proof fn count_rank_absent(pile: Seq<CardView>, number: Number)
    requires
        forall|i: int| 0 <= i < pile.len() ==> (#[trigger] pile[i]).number != number,
    ensures
        count_rank(pile, number) == 0,
    decreases pile.len(),
{
    if pile.len() > 0 {
        let front = pile.drop_last();
        assert(forall|i: int| 0 <= i < front.len() ==> front[i] == pile[i]);
        count_rank_absent(front, number);
    }
}

/// The start of a pile holds no more cards of a number than the pile does.
pub proof fn count_rank_prefix(pile: Seq<CardView>, upto: int, number: Number)
    requires
        0 <= upto <= pile.len(),
    ensures
        count_rank(pile.subrange(0, upto), number) <= count_rank(pile, number),
    decreases pile.len() - upto,
{
    if upto < pile.len() {
        count_rank_prefix(pile, upto + 1, number);
        let longer = pile.subrange(0, upto + 1);
        assert(longer.drop_last() =~= pile.subrange(0, upto));
    } else {
        assert(pile.subrange(0, upto) =~= pile);
    }
}

/// A player who holds a hand has a first hand.
pub proof fn holder_is_seated(hands: Seq<HandView>, name: Seq<char>, i: int)
    requires
        0 <= i < hands.len(),
        hands[i].player == name,
    ensures
        seated(hands, name),
    decreases i,
{
    if exists|j: int| 0 <= j < i && (#[trigger] hands[j]).player == name {
        let j = choose|j: int| 0 <= j < i && (#[trigger] hands[j]).player == name;
        holder_is_seated(hands, name, j);
    } else {
        assert(is_seat(hands, name, i));
    }
}

/// A player has a first hand exactly when the player is among the names
/// of the game.
pub proof fn seated_is_named(g: GameView, name: Seq<char>)
    ensures
        seated(g.hands, name) == g.names().contains(name),
{
    if g.names().contains(name) {
        let i = choose|i: int| 0 <= i < g.names().len() && g.names()[i] == name;
        holder_is_seated(g.hands, name, i);
    }
    if seated(g.hands, name) {
        let i = choose|i: int| is_seat(g.hands, name, i);
        assert(g.names()[i] == name);
    }
}

} // verus!
