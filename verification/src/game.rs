//! A game in progress: its state, how it starts and what can be read of it.

use crate::cards::{standard_deck, views, Card, CardView, Deck, Hand, HandView};
use crate::clock;
use crate::model::{hand_size, initial, GameView, MoveView};
use crate::report::smiley;
use crate::text::texts;
use crate::values::{Color, Number};
use std::time::SystemTime;
use vstd::prelude::*;

verus! {

/// The description of the latest move, as two texts: one for a chosen
/// player, one for everybody else.
pub struct Move {
    player: usize,
    for_public: String,
    for_others: String,
}

impl View for Move {
    type V = MoveView;

    closed spec fn view(&self) -> MoveView {
        MoveView {
            player: self.player as nat,
            for_public: self.for_public@,
            for_others: self.for_others@,
        }
    }
}

impl Move {
    pub fn new(player: usize, for_public: String, for_others: String) -> (m: Move)
        ensures
            m@ == (MoveView {
                player: player as nat,
                for_public: for_public@,
                for_others: for_others@,
            }),
    {
        Move { player, for_public, for_others }
    }

    /// The hand index of the player whom the first text is for.
    pub fn player(&self) -> (player: usize)
        ensures
            player == self@.player,
    {
        self.player
    }

    /// The text for that player.
    pub fn for_public(&self) -> (s: &str)
        ensures
            s@ == self@.for_public,
    {
        self.for_public.as_str()
    }

    /// The text for everybody else.
    pub fn for_others(&self) -> (s: &str)
        ensures
            s@ == self@.for_others,
    {
        self.for_others.as_str()
    }

    /// The text that the player at hand index `player` gets.
    pub fn show_to(&self, player: usize) -> (s: &str)
        ensures
            s@ == self@.shown_to(player as nat),
    {
        if player == self.player {
            self.for_public.as_str()
        } else {
            self.for_others.as_str()
        }
    }
}

/// A game of Hanabi.
pub struct Game {
    pub(crate) deck: Deck,
    pub(crate) hands: Vec<Hand>,
    /// The top of each color's stack, by the color's place in display order.
    pub(crate) played: Vec<Option<Number>>,
    /// The discarded cards of each color, by the color's place in display order.
    pub(crate) discard: Vec<Vec<Card>>,
    pub(crate) last_move: Move,
    pub(crate) last_move_at: SystemTime,
    pub(crate) clues: usize,
    pub(crate) lives: usize,
    pub(crate) turn: usize,
    pub(crate) last_turns: Option<usize>,
    pub(crate) started: SystemTime,
    pub(crate) is_unwinnable: bool,
}

/// The values of a sequence of hands, in the same order.
pub open spec fn hand_views(hands: Seq<Hand>) -> Seq<HandView> {
    hands.map_values(|h: Hand| h@)
}

/// The stacks as a map from the colors that have a card to their top.
pub open spec fn played_map(played: Seq<Option<Number>>) -> Map<Color, Number> {
    Map::new(|c: Color| played[c.ord()] is Some, |c: Color| played[c.ord()]->0)
}

/// The discard pile as a map from the colors that have a card in it to
/// their cards.
pub open spec fn discard_map(discard: Seq<Vec<Card>>) -> Map<Color, Seq<CardView>> {
    Map::new(|c: Color| discard[c.ord()]@.len() > 0, |c: Color| views(discard[c.ord()]@))
}

impl View for Game {
    type V = GameView;

    closed spec fn view(&self) -> GameView {
        GameView {
            deck: self.deck.cards(),
            deck_total: self.deck.total(),
            hands: hand_views(self.hands@),
            played: played_map(self.played@),
            discard: discard_map(self.discard@),
            last_move: self.last_move@,
            clues: self.clues as nat,
            lives: self.lives as nat,
            turn: self.turn as nat,
            last_turns: match self.last_turns {
                Some(k) => Some(k as nat),
                None => None,
            },
            is_unwinnable: self.is_unwinnable,
        }
    }
}

impl Game {
    /// Whether the game is one that the constructors and actions produce.
    pub closed spec fn wf(&self) -> bool {
        &&& self.played@.len() == 5
        &&& self.discard@.len() == 5
        &&& self@.wf()
    }

    /// A game that the constructors and actions produce has a state that
    /// is well formed.
    pub proof fn wf_view(&self)
        requires
            self.wf(),
        ensures
            self@.wf(),
    {
    }

    pub(crate) proof fn unfold(&self)
        ensures
            self@ == (GameView {
                deck: self.deck.cards(),
                deck_total: self.deck.total(),
                hands: hand_views(self.hands@),
                played: played_map(self.played@),
                discard: discard_map(self.discard@),
                last_move: self.last_move@,
                clues: self.clues as nat,
                lives: self.lives as nat,
                turn: self.turn as nat,
                last_turns: match self.last_turns {
                    Some(k) => Some(k as nat),
                    None => None,
                },
                is_unwinnable: self.is_unwinnable,
            }),
            self.wf() == (self.played@.len() == 5 && self.discard@.len() == 5 && self@.wf()),
    {
    }

    /// Starts a game for the given players, in turn order, with the given
    /// deck: each player in turn takes a full hand off the top.
    pub fn with_deck(players: &[String], deck: Deck) -> (g: Game)
        requires
            2 <= players@.len() <= 5,
            players@.len() * hand_size(players@.len()) < deck.cards().len() <= deck.total(),
        ensures
            g.wf(),
            g@ == initial(texts(players@), deck.cards(), deck.total()),
    {
        let mut deck = deck;
        let ghost full = deck.cards();
        let ghost total = deck.total();
        let size: usize = if players.len() <= 3 {
            5
        } else {
            4
        };
        let mut hands: Vec<Hand> = Vec::new();
        let mut i: usize = 0;
        while i < players.len()
            invariant
                2 <= players@.len() <= 5,
                i <= players@.len(),
                size == hand_size(players@.len()),
                full.len() > players@.len() * size,
                deck.total() == total,
                deck.cards() == full.subrange(0, full.len() - i * size),
                hands@.len() == i,
                forall|k: int|
                    0 <= k < i ==> (#[trigger] hands@[k])@ == initial(
                        texts(players@),
                        full,
                        deck.total(),
                    ).hands[k],
            decreases players@.len() - i,
        {
            let mut hand = Hand::new(players[i].as_str());
            let mut j: usize = 0;
            assert(i * size + size <= players@.len() * size) by (nonlinear_arith)
                requires
                    i < players@.len(),
                    size >= 0,
            ;
            while j < size
                invariant
                    j <= size,
                    i * size + size <= players@.len() * size,
                    full.len() > players@.len() * size,
                    deck.total() == total,
                    deck.cards() == full.subrange(0, full.len() - i * size - j),
                    hand@.player == players@[i as int]@,
                    hand@.cards.len() == j,
                    forall|m: int|
                        0 <= m < j ==> #[trigger] hand@.cards[m] == full[full.len() - 1 - i * size
                            - m],
                decreases size - j,
            {
                let ghost before = deck.cards();
                let drew = hand.draw(&mut deck);
                assert(drew);
                assert(deck.cards() =~= full.subrange(0, full.len() - i * size - (j + 1)));
                assert(before.last() == full[full.len() - 1 - i * size - j]);
                j = j + 1;
            }
            proof {
                let want = initial(texts(players@), full, deck.total()).hands[i as int];
                assert(want.player == texts(players@)[i as int]);
                assert(hand@.cards =~= want.cards);
                assert(hand@ == want);
                assert(full.len() - i * size - size == full.len() - (i + 1) * size)
                    by (nonlinear_arith);
            }
            hands.push(hand);
            i = i + 1;
        }
        let mut played: Vec<Option<Number>> = Vec::new();
        let mut discard: Vec<Vec<Card>> = Vec::new();
        let mut c: usize = 0;
        while c < 5
            invariant
                c <= 5,
                played@.len() == c,
                discard@.len() == c,
                forall|k: int| 0 <= k < c ==> (#[trigger] played@[k]) is None,
                forall|k: int| 0 <= k < c ==> (#[trigger] discard@[k])@.len() == 0,
            decreases 5 - c,
        {
            played.push(None);
            discard.push(Vec::new());
            c = c + 1;
        }
        let g = Game {
            hands,
            deck,
            played,
            discard,
            last_move: Move::new(0, String::new(), String::new()),
            last_move_at: clock::now(),
            clues: 8,
            lives: 3,
            turn: 0,
            last_turns: None,
            started: clock::now(),
            is_unwinnable: false,
        };
        proof {
            let want = initial(texts(players@), full, total);
            assert(g@.hands =~= want.hands);
            assert(g@.played =~= want.played);
            assert(g@.discard =~= want.discard);
            assert(g@.deck =~= want.deck);
            assert(g@.last_move == want.last_move);
            assert(g@ == want);
        }
        g
    }

    /// Starts a game for the given players, in turn order, with a full deck
    /// in an order drawn at random.
    pub fn new(players: &[String]) -> (g: Game)
        requires
            2 <= players@.len() <= 5,
        ensures
            g.wf(),
            exists|deck: Seq<CardView>|
                deck.to_multiset() == standard_deck().to_multiset() && #[trigger] initial(
                    texts(players@),
                    deck,
                    50,
                ) == g@,
            g@.names() == texts(players@),
            !g@.over(),
    {
        let deck = Deck::default();
        assert(players@.len() * hand_size(players@.len()) <= 20);
        let g = Game::with_deck(players, deck);
        assert(g@.names() =~= texts(players@));
        g
    }

    /// The rank of the top card of the stack at place `idx` of the display
    /// order; 0 for an empty stack.
    fn stack_rank(&self, idx: usize) -> (r: usize)
        requires
            self.wf(),
            idx < 5,
        ensures
            r == self@.stack_rank(Color::at(idx as int)),
            r <= 5,
    {
        match self.played[idx] {
            Some(top) => top.as_usize(),
            None => 0,
        }
    }

    /// Current total score of this game.
    pub fn score(&self) -> (points: usize)
        requires
            self.wf(),
        ensures
            points == self@.score(),
            points <= 25,
    {
        self.stack_rank(0) + self.stack_rank(1) + self.stack_rank(2) + self.stack_rank(3)
            + self.stack_rank(4)
    }

    /// The names of the players in this game, in turn order.
    pub fn players(&self) -> (names: Vec<String>)
        ensures
            names@.len() == self@.hands.len(),
            forall|i: int| 0 <= i < names@.len() ==> (#[trigger] names@[i])@ == self@.hands[i].player,
    {
        let mut names: Vec<String> = Vec::new();
        let mut i: usize = 0;
        while i < self.hands.len()
            invariant
                i <= self.hands@.len(),
                names@.len() == i,
                self@.hands == hand_views(self.hands@),
                forall|k: int| 0 <= k < i ==> (#[trigger] names@[k])@ == self@.hands[k].player,
            decreases self.hands.len() - i,
        {
            names.push(self.hands[i].player.clone());
            i = i + 1;
        }
        names
    }

    /// The name of the player whose turn it is.
    pub fn current_player(&self) -> (name: &str)
        requires
            self.wf(),
        ensures
            name@ == self@.mover().player,
    {
        self.hands[self.turn].player.as_str()
    }

    /// A face for the score.
    pub fn score_smiley(&self) -> (face: &'static str)
        requires
            self.wf(),
        ensures
            face@ == smiley(self@.score()),
    {
        let points = self.score();
        if points >= 25 {
            ":tada:"
        } else if points >= 24 {
            ":tired_face:"
        } else if points >= 23 {
            ":slightly_smiling_face:"
        } else if points >= 22 {
            ":neutral_face:"
        } else if points >= 20 {
            ":confused:"
        } else if points >= 15 {
            ":slightly_frowning_face:"
        } else if points >= 10 {
            ":disappointed:"
        } else {
            ":face_with_rolling_eyes:"
        }
    }

    /// The latest move as its mover is told of it.
    pub fn last_move(&self) -> (text: &str)
        ensures
            text@ == self@.last_move.for_public,
    {
        self.last_move.for_public.as_str()
    }

    /// The clue tokens that are left.
    pub fn clues(&self) -> (n: usize)
        ensures
            n == self@.clues,
    {
        self.clues
    }

    /// The fuse tokens that are left.
    pub fn lives(&self) -> (n: usize)
        ensures
            n == self@.lives,
    {
        self.lives
    }

    /// The hand index of the player whose turn it is.
    pub fn turn(&self) -> (i: usize)
        ensures
            i == self@.turn,
    {
        self.turn
    }

    /// How many turns were taken since the deck ran out, once it has.
    pub fn last_turns(&self) -> (k: Option<usize>)
        ensures
            k is Some == self@.last_turns is Some,
            k matches Some(n) ==> self@.last_turns == Some(n as nat),
    {
        self.last_turns
    }

    /// Whether the game was found to be unwinnable.
    pub fn is_unwinnable(&self) -> (b: bool)
        ensures
            b == self@.is_unwinnable,
    {
        self.is_unwinnable
    }

    /// The deck.
    pub fn deck(&self) -> (deck: &Deck)
        ensures
            deck.cards() == self@.deck,
            deck.total() == self@.deck_total,
    {
        &self.deck
    }

    /// The hands, in turn order.
    pub fn hands(&self) -> (hands: &Vec<Hand>)
        ensures
            hand_views(hands@) == self@.hands,
    {
        &self.hands
    }

    /// The top of a color's stack, if it has a card.
    pub fn top(&self, color: Color) -> (top: Option<Number>)
        requires
            self.wf(),
        ensures
            top is Some == self@.played.dom().contains(color),
            top matches Some(n) ==> self@.played[color] == n,
    {
        self.played[color.index()]
    }

    /// The discarded cards of a color, in increasing rank.
    pub fn pile(&self, color: Color) -> (pile: &Vec<Card>)
        requires
            self.wf(),
        ensures
            views(pile@) == self@.pile(color),
    {
        let pile = &self.discard[color.index()];
        assert(views(pile@) =~= self@.pile(color));
        pile
    }

    /// Whether the game has ended by running out of fuses or of final
    /// turns.
    pub fn is_lost(&self) -> (b: bool)
        ensures
            b == self@.lost(),
    {
        self.lives == 0 || match self.last_turns {
            Some(k) => k == self.hands.len(),
            None => false,
        }
    }
}

} // verus!
