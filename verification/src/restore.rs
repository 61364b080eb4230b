//! Taking a game apart for keeping, and putting one together again from
//! what was kept, after checking that it is a game.

use crate::cards::{views, Card, Deck, Hand};
use crate::game::{hand_views, played_map};
use crate::game::{discard_map, Game, Move};
use crate::model::{sorted, GameView};
use crate::session::{apart, table_views, Hanabi, SessionView, Table};
use crate::text::texts;
use crate::values::{Color, Number};
use std::time::SystemTime;
use vstd::prelude::*;

verus! {

/// All that a game holds, as plain values.
pub struct GameParts {
    pub deck: Deck,
    pub hands: Vec<Hand>,
    /// The top of each color's stack, by the color's place in display order.
    pub played: Vec<Option<Number>>,
    /// The discarded cards of each color, by the color's place in display order.
    pub discard: Vec<Vec<Card>>,
    pub last_move: Move,
    pub last_move_at: SystemTime,
    pub clues: usize,
    pub lives: usize,
    pub turn: usize,
    pub last_turns: Option<usize>,
    pub started: SystemTime,
    pub is_unwinnable: bool,
}

/// Whether the cards are a pile of the color at place `c`: all of that
/// color, in increasing rank.
pub fn pile_ok(pile: &Vec<Card>, c: usize) -> (ok: bool)
    requires
        c < 5,
    ensures
        ok == (sorted(views(pile@)) && forall|i: int|
            0 <= i < pile@.len() ==> (#[trigger] views(pile@)[i]).color == Color::at(c as int)),
{
    let ghost cards = views(pile@);
    let mut i: usize = 0;
    while i < pile.len()
        invariant
            i <= pile@.len(),
            c < 5,
            cards == views(pile@),
            sorted(cards.take(i as int)),
            forall|k: int| 0 <= k < i ==> (#[trigger] cards[k]).color == Color::at(c as int),
        decreases pile.len() - i,
    {
        if pile[i].color.index() != c {
            assert(cards[i as int].color != Color::at(c as int));
            return false;
        }
        if i > 0 && pile[i - 1].number.as_usize() > pile[i].number.as_usize() {
            proof {
                if sorted(cards) {
                    assert(cards[i - 1].number.rank() <= cards[i as int].number.rank());
                }
            }
            return false;
        }
        proof {
            let before = cards.take(i as int);
            let upto = cards.take(i + 1);
            assert forall|a: int, b: int| 0 <= a < b < upto.len() implies (#[trigger] upto[a]).number.rank()
                <= (#[trigger] upto[b]).number.rank() by {
                assert(upto[a] == cards[a]);
                assert(upto[b] == cards[b]);
                if b < i {
                    assert(before[a].number.rank() <= before[b].number.rank());
                } else if a < i - 1 {
                    assert(before[a].number.rank() <= before[i - 1].number.rank());
                }
            }
        }
        i = i + 1;
    }
    assert(cards.take(i as int) =~= cards);
    true
}

/// A card like the given one.
pub fn copy_card(card: &Card) -> (copy: Card)
    ensures
        copy@ == card@,
{
    let mut clues: Vec<(usize, crate::values::Clue)> = Vec::new();
    let mut i: usize = 0;
    while i < card.clues.len()
        invariant
            i <= card.clues@.len(),
            clues@ == card.clues@.take(i as int),
        decreases card.clues.len() - i,
    {
        clues.push(card.clues[i]);
        assert(clues@ =~= card.clues@.take(i + 1));
        i = i + 1;
    }
    assert(card.clues@.take(i as int) =~= card.clues@);
    Card { color: card.color, number: card.number, clues }
}

/// Cards like the given ones, in the same order.
pub fn copy_cards(cards: &Vec<Card>) -> (copy: Vec<Card>)
    ensures
        views(copy@) == views(cards@),
{
    let mut copy: Vec<Card> = Vec::new();
    let mut i: usize = 0;
    while i < cards.len()
        invariant
            i <= cards@.len(),
            copy@.len() == i,
            forall|k: int| 0 <= k < i ==> (#[trigger] copy@[k])@ == cards@[k]@,
        decreases cards.len() - i,
    {
        copy.push(copy_card(&cards[i]));
        i = i + 1;
    }
    assert(views(copy@) =~= views(cards@));
    copy
}

impl Game {
    /// All that the game holds, as plain values of their own.
    pub fn parts(&self) -> (parts: GameParts)
        requires
            self.wf(),
        ensures
            parts.game() == self@,
            parts.valid(),
    {
        proof {
            self.unfold();
        }
        let deck = Deck::restore(self.deck.of(), copy_cards(self.deck.cards_left()));
        let mut hands: Vec<Hand> = Vec::new();
        let mut i: usize = 0;
        while i < self.hands.len()
            invariant
                i <= self.hands@.len(),
                hands@.len() == i,
                forall|k: int| 0 <= k < i ==> (#[trigger] hands@[k])@ == self.hands@[k]@,
            decreases self.hands.len() - i,
        {
            let hand = &self.hands[i];
            hands.push(Hand { player: hand.player.clone(), cards: copy_cards(&hand.cards) });
            i = i + 1;
        }
        assert(hand_views(hands@) =~= hand_views(self.hands@));
        let mut played: Vec<Option<Number>> = Vec::new();
        let mut i: usize = 0;
        while i < self.played.len()
            invariant
                i <= self.played@.len(),
                played@ == self.played@.take(i as int),
            decreases self.played.len() - i,
        {
            played.push(self.played[i]);
            assert(played@ =~= self.played@.take(i + 1));
            i = i + 1;
        }
        assert(self.played@.take(i as int) =~= self.played@);
        let mut discard: Vec<Vec<Card>> = Vec::new();
        let mut i: usize = 0;
        while i < self.discard.len()
            invariant
                i <= self.discard@.len(),
                discard@.len() == i,
                forall|k: int| 0 <= k < i ==> views((#[trigger] discard@[k])@) == views(self.discard@[k]@),
            decreases self.discard.len() - i,
        {
            discard.push(copy_cards(&self.discard[i]));
            i = i + 1;
        }
        proof {
            assert forall|c: Color| #[trigger]
                discard_map(discard@).dom().contains(c) == discard_map(self.discard@).dom().contains(
                    c,
                ) by {
                assert(views(discard@[c.ord()]@).len() == discard@[c.ord()]@.len());
                assert(views(self.discard@[c.ord()]@).len() == self.discard@[c.ord()]@.len());
            }
            assert(discard_map(discard@) =~= discard_map(self.discard@));
        }
        let last_move = Move::new(
            self.last_move.player(),
            String::from_str(self.last_move.for_public()),
            String::from_str(self.last_move.for_others()),
        );
        let parts = GameParts {
            deck,
            hands,
            played,
            discard,
            last_move,
            last_move_at: self.last_move_at,
            clues: self.clues,
            lives: self.lives,
            turn: self.turn,
            last_turns: self.last_turns,
            started: self.started,
            is_unwinnable: self.is_unwinnable,
        };
        parts
    }

    /// Tells whether the game is one that the constructors and actions
    /// produce.
    pub fn check(&self) -> (ok: bool)
        ensures
            ok == self.wf(),
    {
        proof {
            self.unfold();
        }
        let players = self.hands.len();
        if self.played.len() != 5 || self.discard.len() != 5 {
            return false;
        }
        if players < 2 || players > 5 || self.turn >= players || self.clues > 8 || self.lives > 3 {
            return false;
        }
        if self.last_move.player() >= players {
            return false;
        }
        let in_deck = self.deck.len();
        if in_deck > self.deck.of() {
            return false;
        }
        match self.last_turns {
            Some(k) => {
                if k > players || in_deck != 0 {
                    return false;
                }
            },
            None => {
                if in_deck == 0 {
                    return false;
                }
            },
        }
        let mut c: usize = 0;
        while c < 5
            invariant
                c <= 5,
                self.discard@.len() == 5,
                self@.discard == discard_map(self.discard@),
                forall|k: Color|
                    k.ord() < c && #[trigger] self@.discard.dom().contains(k) ==> {
                        &&& self@.discard[k].len() > 0
                        &&& sorted(self@.discard[k])
                        &&& forall|i: int|
                            0 <= i < self@.discard[k].len() ==> (#[trigger] self@.discard[k][i]).color
                                == k
                    },
            decreases 5 - c,
        {
            let ghost color = Color::at(c as int);
            if !pile_ok(&self.discard[c], c) {
                proof {
                    self.unfold();
                    let pile = views(self.discard@[c as int]@);
                    assert(pile.len() > 0) by {
                        if pile.len() == 0 {
                            assert(sorted(pile));
                        }
                    }
                    assert(self@.discard.dom().contains(color));
                    assert(self@.discard[color] == pile);
                }
                return false;
            }
            proof {
                assert forall|k: Color|
                    k.ord() < c + 1 && #[trigger] self@.discard.dom().contains(k) implies {
                    &&& self@.discard[k].len() > 0
                    &&& sorted(self@.discard[k])
                    &&& forall|i: int|
                        0 <= i < self@.discard[k].len() ==> (#[trigger] self@.discard[k][i]).color
                            == k
                } by {
                    if k.ord() == c {
                        assert(k == color);
                    }
                }
            }
            c = c + 1;
        }
        true
    }

    /// Takes the game apart.
    pub fn into_parts(self) -> (parts: GameParts)
        ensures
            parts.game() == self@,
            self.wf() == parts.valid(),
    {
        proof {
            self.unfold();
        }
        let parts = GameParts {
            deck: self.deck,
            hands: self.hands,
            played: self.played,
            discard: self.discard,
            last_move: self.last_move,
            last_move_at: self.last_move_at,
            clues: self.clues,
            lives: self.lives,
            turn: self.turn,
            last_turns: self.last_turns,
            started: self.started,
            is_unwinnable: self.is_unwinnable,
        };
        parts
    }

    /// Puts a game together from its parts, if they make a game that the
    /// constructors and actions produce.
    pub fn from_parts(parts: GameParts) -> (made: Option<Game>)
        ensures
            made is Some == parts.valid(),
            made matches Some(g) ==> g.wf() && g@ == parts.game(),
    {
        let game = Game {
            deck: parts.deck,
            hands: parts.hands,
            played: parts.played,
            discard: parts.discard,
            last_move: parts.last_move,
            last_move_at: parts.last_move_at,
            clues: parts.clues,
            lives: parts.lives,
            turn: parts.turn,
            last_turns: parts.last_turns,
            started: parts.started,
            is_unwinnable: parts.is_unwinnable,
        };
        proof {
            game.unfold();
        }
        if game.check() {
            Some(game)
        } else {
            None
        }
    }
}

impl GameParts {
    /// The state of the game that the parts describe.
    pub open spec fn game(&self) -> GameView {
        GameView {
            deck: self.deck.cards(),
            deck_total: self.deck.total(),
            hands: crate::game::hand_views(self.hands@),
            played: crate::game::played_map(self.played@),
            discard: discard_map(self.discard@),
            last_move: self.last_move@,
            clues: self.clues as nat,
            lives: self.lives as nat,
            turn: self.turn as nat,
            last_turns: match self.last_turns {
                Some(k) => Some(k as nat),
                None => None,
            },
            is_unwinnable: self.is_unwinnable,
        }
    }

    /// Whether the parts make a game: stacks and piles for each of the
    /// five colors, and a state that is well formed.
    pub open spec fn valid(&self) -> bool {
        self.played@.len() == 5 && self.discard@.len() == 5 && self.game().wf()
    }
}

/// Whether no name is in the list twice.
pub fn distinct(list: &Vec<String>) -> (ok: bool)
    ensures
        ok == texts(list@).no_duplicates(),
{
    let ghost names = texts(list@);
    let mut j: usize = 0;
    while j < list.len()
        invariant
            j <= list@.len(),
            names == texts(list@),
            forall|a: int, b: int| 0 <= a < b < j ==> names[a] != names[b],
        decreases list.len() - j,
    {
        let mut i: usize = 0;
        while i < j
            invariant
                i <= j < list@.len(),
                names == texts(list@),
                forall|a: int| 0 <= a < i ==> names[a] != names[j as int],
            decreases j - i,
        {
            if list[i] == list[j] {
                assert(names[i as int] == names[j as int]);
                return false;
            }
            i = i + 1;
        }
        j = j + 1;
    }
    assert(names.no_duplicates()) by {
        assert forall|a: int, b: int| 0 <= a < names.len() && 0 <= b < names.len() && a
            != b implies names[a] != names[b] by {
            if a < b {
                assert(names[a] != names[b]);
            } else {
                assert(names[b] != names[a]);
            }
        }
    }
    true
}

/// Whether no name of the first list is in the second.
pub fn disjoint(first: &Vec<String>, second: &Vec<String>) -> (ok: bool)
    ensures
        ok == apart(texts(first@), texts(second@)),
{
    let ghost a = texts(first@);
    let ghost b = texts(second@);
    let mut i: usize = 0;
    while i < first.len()
        invariant
            i <= first@.len(),
            a == texts(first@),
            b == texts(second@),
            forall|x: int, y: int| 0 <= x < i && 0 <= y < b.len() ==> a[x] != b[y],
        decreases first.len() - i,
    {
        let mut j: usize = 0;
        while j < second.len()
            invariant
                i < first@.len(),
                j <= second@.len(),
                a == texts(first@),
                b == texts(second@),
                forall|y: int| 0 <= y < j ==> a[i as int] != b[y],
            decreases second.len() - j,
        {
            if first[i] == second[j] {
                assert(a[i as int] == b[j as int]);
                return false;
            }
            j = j + 1;
        }
        i = i + 1;
    }
    true
}

/// All that a session holds, as plain values.
pub struct SessionParts {
    pub me: String,
    pub channel: String,
    pub waiting: Vec<String>,
    pub ngames: usize,
    /// Each running game with its number, oldest first.
    pub games: Vec<(usize, GameParts)>,
}

impl SessionParts {
    /// Whether every game of the parts makes a game.
    pub open spec fn games_valid(&self) -> bool {
        forall|t: int| 0 <= t < self.games@.len() ==> (#[trigger] self.games@[t]).1.valid()
    }

    /// The state of the session that the parts describe.
    pub open spec fn session(&self) -> SessionView {
        SessionView {
            me: self.me@,
            channel: self.channel@,
            waiting: texts(self.waiting@),
            ngames: self.ngames as nat,
            games: self.games@.map_values(|g: (usize, GameParts)| (g.0 as nat, g.1.game())),
        }
    }

    /// Whether the parts make a session as it is between two commands.
    pub open spec fn valid(&self) -> bool {
        self.games_valid() && self.session().wf()
    }
}

impl Hanabi {
    /// Tells whether the session is as it is between two commands, given
    /// that each of its games is one that the constructors and actions
    /// produce.
    pub fn check(&self) -> (ok: bool)
        requires
            self.games_wf(),
        ensures
            ok == self.wf(),
    {
        proof {
            self.unfold();
        }
        if !distinct(&self.waiting) {
            return false;
        }
        let mut seats: Vec<Vec<String>> = Vec::new();
        let mut t: usize = 0;
        while t < self.games.len()
            invariant
                t <= self.games@.len(),
                self.games_wf(),
                self@.games == table_views(self.games@),
                self@.waiting == texts(self.waiting@),
                self@.ngames == self.ngames,
                seats@.len() == t,
                forall|s: int| 0 <= s < t ==> texts((#[trigger] seats@[s])@) == self@.games[s].1.names(),
                forall|s: int|
                    0 <= s < t ==> {
                        let g = #[trigger] self@.games[s];
                        &&& g.0 < self@.ngames
                        &&& g.1.wf()
                        &&& g.1.names().no_duplicates()
                        &&& apart(g.1.names(), self@.waiting)
                        &&& !g.1.over()
                    },
            decreases self.games.len() - t,
        {
            proof {
                self.unfold();
                self.games@[t as int].unfold();
                self.games@[t as int].game.wf_view();
            }
            let table = &self.games[t];
            let names = table.game.players();
            assert(texts(names@) =~= self@.games[t as int].1.names());
            let over = table.game.is_lost() || table.game.score() == 25;
            if table.id >= self.ngames || over || !distinct(&names) || !disjoint(
                &names,
                &self.waiting,
            ) {
                return false;
            }
            seats.push(names);
            t = t + 1;
        }
        let count = self.games.len();
        let mut t: usize = 0;
        while t < count
            invariant
                t <= count,
                count == self.games@.len(),
                count == seats@.len(),
                self@.games == table_views(self.games@),
                forall|s: int| 0 <= s < count ==> texts((#[trigger] seats@[s])@) == self@.games[s].1.names(),
                forall|r: int, s: int|
                    0 <= r < s < t ==> {
                        &&& (#[trigger] self@.games[r]).0 != (#[trigger] self@.games[s]).0
                        &&& apart(self@.games[r].1.names(), self@.games[s].1.names())
                    },
            decreases count - t,
        {
            let mut r: usize = 0;
            while r < t
                invariant
                    r <= t < count,
                    count == self.games@.len(),
                    count == seats@.len(),
                    self@.games == table_views(self.games@),
                    forall|s: int|
                        0 <= s < count ==> texts((#[trigger] seats@[s])@) == self@.games[s].1.names(),
                    forall|q: int|
                        0 <= q < r ==> {
                            &&& (#[trigger] self@.games[q]).0 != self@.games[t as int].0
                            &&& apart(self@.games[q].1.names(), self@.games[t as int].1.names())
                        },
                decreases t - r,
            {
                proof {
                    self.games@[t as int].unfold();
                    self.games@[r as int].unfold();
                    assert(texts(seats@[r as int]@) == self@.games[r as int].1.names());
                    assert(texts(seats@[t as int]@) == self@.games[t as int].1.names());
                }
                if self.games[r].id == self.games[t].id || !disjoint(&seats[r], &seats[t]) {
                    proof {
                        self.unfold();
                    }
                    return false;
                }
                r = r + 1;
            }
            t = t + 1;
        }
        true
    }

    /// Tells whether the session is as it is between two commands.
    pub fn validate(&self) -> (ok: bool)
        ensures
            ok == self.wf(),
    {
        proof {
            self.unfold();
        }
        let mut t: usize = 0;
        while t < self.games.len()
            invariant
                t <= self.games@.len(),
                forall|s: int| 0 <= s < t ==> (#[trigger] self.games@[s]).game.wf(),
            decreases self.games.len() - t,
        {
            if !self.games[t].game.check() {
                proof {
                    self.unfold();
                }
                return false;
            }
            t = t + 1;
        }
        self.check()
    }

    /// All that the session holds, as plain values of their own.
    pub fn parts(&self) -> (parts: SessionParts)
        requires
            self.wf(),
        ensures
            parts.valid(),
            parts.session() == self@,
    {
        proof {
            self.unfold();
        }
        let mut waiting: Vec<String> = Vec::new();
        let mut i: usize = 0;
        while i < self.waiting.len()
            invariant
                i <= self.waiting@.len(),
                waiting@.len() == i,
                forall|k: int| 0 <= k < i ==> (#[trigger] waiting@[k])@ == self.waiting@[k]@,
            decreases self.waiting.len() - i,
        {
            waiting.push(self.waiting[i].clone());
            i = i + 1;
        }
        assert(texts(waiting@) =~= texts(self.waiting@));
        let mut games: Vec<(usize, GameParts)> = Vec::new();
        let mut t: usize = 0;
        while t < self.games.len()
            invariant
                t <= self.games@.len(),
                self.games_wf(),
                games@.len() == t,
                forall|s: int|
                    0 <= s < t ==> (#[trigger] games@[s]).1.valid() && (
                        games@[s].0 as nat,
                        games@[s].1.game(),
                    ) == self.games@[s]@,
            decreases self.games.len() - t,
        {
            proof {
                self.unfold();
                self.games@[t as int].unfold();
            }
            let table = &self.games[t];
            games.push((table.id, table.game.parts()));
            t = t + 1;
        }
        let parts = SessionParts {
            me: self.me.clone(),
            channel: self.channel.clone(),
            waiting,
            ngames: self.ngames,
            games,
        };
        assert(parts.session().games =~= self@.games);
        parts
    }

    /// Takes the session apart.
    pub fn into_parts(self) -> (parts: SessionParts)
        requires
            self.wf(),
        ensures
            parts.valid(),
            parts.session() == self@,
    {
        proof {
            self.unfold();
        }
        let ghost whole = self@;
        let mut tables = self.games;
        let mut games: Vec<(usize, GameParts)> = Vec::new();
        let ghost all = tables@;
        while tables.len() > 0
            invariant
                games@.len() + tables@.len() == all.len(),
                forall|t: int| 0 <= t < tables@.len() ==> (#[trigger] tables@[t]) == all[games@.len() + t],
                forall|t: int| 0 <= t < all.len() ==> (#[trigger] all[t]).game.wf(),
                forall|t: int|
                    0 <= t < games@.len() ==> (#[trigger] games@[t]).1.valid() && games@[t].0
                        == all[t].id && games@[t].1.game() == all[t].game@,
            decreases tables@.len(),
        {
            let table = tables.remove(0);
            assert(table == all[games@.len() as int]);
            let id = table.id;
            let parts = table.game.into_parts();
            games.push((id, parts));
        }
        let parts = SessionParts {
            me: self.me,
            channel: self.channel,
            waiting: self.waiting,
            ngames: self.ngames,
            games,
        };
        proof {
            assert forall|t: int| 0 <= t < all.len() implies (#[trigger] parts.session().games[t])
                == whole.games[t] by {
                all[t].unfold();
            }
            assert(parts.session().games =~= whole.games);
        }
        parts
    }

    /// Puts a session together from its parts, if they make a session as
    /// it is between two commands.
    pub fn from_parts(parts: SessionParts) -> (made: Option<Hanabi>)
        ensures
            made is Some == parts.valid(),
            made matches Some(h) ==> h.wf() && h@ == parts.session(),
    {
        let ghost whole = parts;
        let ghost wanted = parts.session();
        let ghost given = parts.games@;
        let SessionParts { me, channel, waiting, ngames, games } = parts;
        let mut games = games;
        let mut tables: Vec<Table> = Vec::new();
        while games.len() > 0
            invariant
                whole == parts,
                given == whole.games@,
                tables@.len() + games@.len() == given.len(),
                forall|t: int| 0 <= t < games@.len() ==> (#[trigger] games@[t]) == given[tables@.len() + t],
                forall|t: int|
                    0 <= t < tables@.len() ==> (#[trigger] tables@[t]).game.wf() && tables@[t]@ == (
                        given[t].0 as nat,
                        given[t].1.game(),
                    ) && given[t].1.valid(),
            decreases games@.len(),
        {
            let (id, game) = games.remove(0);
            let ghost at = tables@.len() as int;
            assert(given[at] == (id, game));
            match Game::from_parts(game) {
                Some(game) => {
                    let table = Table { id, game };
                    proof {
                        table.unfold();
                    }
                    tables.push(table);
                },
                None => {
                    assert(!whole.games@[at].1.valid());
                    assert(!whole.games_valid());
                    return None;
                },
            }
        }
        let session = Hanabi { me, channel, waiting, ngames, games: tables };
        proof {
            session.unfold();
            assert(table_views(session.games@) =~= wanted.games);
            assert(session@ == wanted);
            assert forall|t: int| 0 <= t < whole.games@.len() implies (#[trigger] whole.games@[t]).1.valid() by {
                assert(tables@[t].game.wf());
            }
            assert(session.games_wf());
        }
        if session.check() {
            Some(session)
        } else {
            None
        }
    }
}

} // verus!
