//! The games that are running and the players who wait for one.

use crate::actions::mention_of;
use crate::game::Game;
use crate::model::{mention, seated_is_named, GameView};
use crate::shuffle::{same_items_mapped, same_items_same_members, shuffle};
use crate::report::smiley;
use crate::sink::{Message, Outbox};
use crate::text::{decimal, decimal_text, join, join_text, texts};
use vstd::prelude::*;

verus! {

/// A running game and the number it was given when it began.
pub struct Table {
    pub(crate) id: usize,
    pub(crate) game: Game,
}

/// The running games and the waiting players.
///
/// A player who has joined either waits or sits in exactly one game; who
/// plays where is read off the games.
pub struct Hanabi {
    /// The name under which the players address this program.
    pub(crate) me: String,
    /// The channel in which the games are announced.
    pub(crate) channel: String,
    /// The players who wait for a game, longest first.
    pub(crate) waiting: Vec<String>,
    /// How many games were begun so far.
    pub(crate) ngames: usize,
    /// The games that are running, oldest first.
    pub(crate) games: Vec<Table>,
}

/// The mathematical value of a session.
pub struct SessionView {
    pub me: Seq<char>,
    pub channel: Seq<char>,
    pub waiting: Seq<Seq<char>>,
    pub ngames: nat,
    /// Each running game with its number.
    pub games: Seq<(nat, GameView)>,
}

/// Whether no name of the first list is in the second.
pub open spec fn apart(a: Seq<Seq<char>>, b: Seq<Seq<char>>) -> bool {
    forall|i: int, j: int| 0 <= i < a.len() && 0 <= j < b.len() ==> #[trigger] a[i] != #[trigger] b[j]
}

impl SessionView {
    /// Whether the player sits in a running game.
    pub open spec fn seated(self, user: Seq<char>) -> bool {
        exists|t: int| 0 <= t < self.games.len() && (#[trigger] self.games[t]).1.names().contains(user)
    }

    /// Whether the player has joined: waits, or sits in a game.
    pub open spec fn playing(self, user: Seq<char>) -> bool {
        self.waiting.contains(user) || self.seated(user)
    }

    /// How many players have joined.
    pub open spec fn joined(self) -> nat {
        self.waiting.len() + self.seats_upto(self.games.len())
    }

    /// The list of players up to the first `count` games: how many games
    /// there are and how many players, and a line for each of those games
    /// with its number and its players.
    pub open spec fn roster_upto(self, count: nat) -> Seq<char>
        decreases count,
    {
        if count == 0 {
            "There are currently "@ + crate::text::decimal_text(self.games.len()) + " games and "@
                + crate::text::decimal_text(self.joined()) + " players:"@
        } else {
            self.roster_upto((count - 1) as nat) + "\n#"@ + crate::text::decimal_text(
                self.games[count - 1].0,
            ) + ": <@"@ + crate::text::join_text(self.games[count - 1].1.names(), ">, <@"@) + ">"@
        }
    }

    /// The list of players: the games, and who waits.
    pub open spec fn roster(self) -> Seq<char> {
        if self.waiting.len() == 0 {
            self.roster_upto(self.games.len()) + "\nNo players waiting."@
        } else {
            self.roster_upto(self.games.len()) + "\nWaiting: "@ + crate::text::join_text(
                mentions(self.waiting),
                ", "@,
            )
        }
    }

    /// How many players sit in the first `count` games.
    pub open spec fn seats_upto(self, count: nat) -> nat
        decreases count,
    {
        if count == 0 {
            0
        } else {
            self.seats_upto((count - 1) as nat) + self.games[count - 1].1.names().len()
        }
    }

    /// What holds of the session whether or not a game has just ended:
    /// nobody waits twice, every game is well formed and has a number of
    /// its own, and nobody sits in a game twice, in two games, or in a game
    /// while waiting.
    pub open spec fn sound(self) -> bool {
        &&& self.waiting.no_duplicates()
        &&& forall|t: int|
            0 <= t < self.games.len() ==> {
                let g = #[trigger] self.games[t];
                &&& g.0 < self.ngames
                &&& g.1.wf()
                &&& g.1.names().no_duplicates()
                &&& apart(g.1.names(), self.waiting)
            }
        &&& forall|s: int, t: int|
            0 <= s < t < self.games.len() ==> {
                &&& (#[trigger] self.games[s]).0 != (#[trigger] self.games[t]).0
                &&& apart(self.games[s].1.names(), self.games[t].1.names())
            }
    }

    /// Whether every game but the one at `t` is still on.
    pub open spec fn others_on(self, t: int) -> bool {
        forall|s: int| 0 <= s < self.games.len() && s != t ==> !(#[trigger] self.games[s]).1.over()
    }

    /// What holds of the session between two commands: it is sound, and
    /// every game is still on.
    pub open spec fn wf(self) -> bool {
        &&& self.sound()
        &&& forall|t: int| 0 <= t < self.games.len() ==> !(#[trigger] self.games[t]).1.over()
    }

    /// What the waiting players are told when the queue has changed:
    /// that a game can begin, once two of them are there.
    pub open spec fn ready_lines(self) -> Seq<Message> {
        if self.waiting.len() >= 2 {
            to_all(self.waiting, self.ready_text())
        } else {
            Seq::empty()
        }
    }

    /// What is told when the game at `t` is ended and `after` is the
    /// session then: its players are told the score, and the waiting players
    /// that a game can begin.
    pub open spec fn ended_told(self, t: int, after: SessionView) -> Seq<Message> {
        to_all(self.games[t].1.names(), ended_text(self.games[t].1)) + after.ready_lines()
    }

    /// Whether `after` is this session with the game at `t` ended: the
    /// game is gone, and its players stand at the end of the queue in some
    /// order.
    pub open spec fn ended(self, t: int, after: SessionView) -> bool {
        &&& after.me == self.me
        &&& after.channel == self.channel
        &&& after.ngames == self.ngames
        &&& after.games == self.games.remove(t)
        &&& after.waiting.len() == self.waiting.len() + self.games[t].1.names().len()
        &&& after.waiting.take(self.waiting.len() as int) == self.waiting
        &&& after.waiting.skip(self.waiting.len() as int).to_multiset()
            == self.games[t].1.names().to_multiset()
    }

    /// Whether `after` is this session after a turn that made `game` of
    /// the game at `t`: the game has ended if it is over, and else stands
    /// as `game`, checked for having become unwinnable.
    pub open spec fn moved(self, t: int, game: GameView, after: SessionView) -> bool {
        if game.over() {
            self.ended(t, after)
        } else {
            after == (SessionView {
                games: self.games.update(t, (self.games[t].0, game.after_check())),
                ..self
            })
        }
    }

    /// Whether `after` is this session after a turn that made `game` of
    /// the game at `t`, and `now` is what was told, `was`, with what is
    /// told after the turn, some time after the game began.
    pub open spec fn turned(
        self,
        t: int,
        game: GameView,
        after: SessionView,
        was: Seq<Message>,
        now: Seq<Message>,
    ) -> bool {
        &&& self.moved(t, game, after)
        &&& exists|told: Option<u64>| now == was + #[trigger] turn_told(game, told, after)
    }

    /// What is told when the named player ends the game at `t` before its
    /// time and `after` is the session then: its players are told who ended
    /// it and with what score, and then what is told when a game is ended.
    pub open spec fn quit_told(self, t: int, user: Seq<char>, after: SessionView) -> Seq<Message> {
        to_all(self.games[t].1.names(), quit_text(self.games[t].1, user)) + self.ended_told(t, after)
    }

    /// This session without the player in the queue.
    pub open spec fn without(self, user: Seq<char>) -> SessionView {
        SessionView { waiting: self.waiting.remove(place_of(self.waiting, user)), ..self }
    }

    /// Whether `after` is this session after the player asked to join,
    /// and `joined` tells whether the player was new: a new player stands at
    /// the end of the queue, and for one who had joined nothing changes.
    pub open spec fn joined_by(
        self,
        user: Seq<char>,
        joined: bool,
        after: SessionView,
        was: Seq<Message>,
        now: Seq<Message>,
    ) -> bool {
        &&& joined == !self.playing(user)
        &&& after == if joined {
            SessionView { waiting: self.waiting.push(user), ..self }
        } else {
            self
        }
        &&& now == if joined {
            was.push(
                (
                    user,
                    "Welcome! I'll get you started with a game as soon as there are some other players available."@,
                ),
            ) + after.ready_lines()
        } else if self.waiting.contains(user) {
            was.push(
                (
                    user,
                    "You can start a game with `start` once there are enough players available."@,
                ),
            )
        } else {
            was.push((user, "You're already playing, but I appreciate your enthusiasm."@))
        }
    }

    /// Whether `after` is this session after the player asked to leave,
    /// and `left` tells whether the player had joined: a player who waits
    /// is taken off the queue; for one who sits in a game, the game is ended
    /// first and the player taken off the queue then; for one who had not
    /// joined nothing changes.
    pub open spec fn left_by(
        self,
        user: Seq<char>,
        left: bool,
        after: SessionView,
        was: Seq<Message>,
        now: Seq<Message>,
    ) -> bool {
        &&& left == self.playing(user)
        &&& !after.playing(user)
        &&& if self.waiting.contains(user) {
            after == self.without(user) && now == was.push((user, stricken()))
        } else if self.seated(user) {
            exists|mid: SessionView| #[trigger]
                self.ended(self.table_at(user), mid) && after == mid.without(user) && now == (was
                    + self.quit_told(self.table_at(user), user, mid)).push((user, stricken()))
        } else {
            after == self && now == was
        }
    }

    /// The place of the game in which the player sits.
    pub open spec fn table_at(self, user: Seq<char>) -> int {
        choose|t: int| 0 <= t < self.games.len() && (#[trigger] self.games[t]).1.names().contains(user)
    }

    /// Whether `after` is this session after a game was asked for, by
    /// the named player if there is one, for as many players as `users`
    /// says, and `began` tells whether one began. A player who asks without
    /// waiting gets none. Otherwise the players are taken from the queue; with
    /// two or more of them a game begins, at the end of the list of games and
    /// under the next number, and with fewer they go back to the end of the
    /// queue.
    pub open spec fn begun(
        self,
        user: Option<Seq<char>>,
        users: Option<usize>,
        began: bool,
        after: SessionView,
    ) -> bool {
        if user matches Some(u) && !self.waiting.contains(u) {
            !began && after == self
        } else {
            let (picked, rest) = drawn_from(self.waiting, user, users);
            &&& began == (picked.len() >= 2 && self.ngames < usize::MAX)
            &&& !began ==> after == (SessionView { waiting: rest + picked, ..self })
            &&& began ==> {
                &&& after.me == self.me
                &&& after.channel == self.channel
                &&& after.ngames == self.ngames + 1
                &&& after.waiting == rest
                &&& after.games.len() == self.games.len() + 1
                &&& after.games.drop_last() == self.games
                &&& after.games.last().0 == self.ngames
                &&& exists|deck: Seq<crate::cards::CardView>|
                    deck.to_multiset() == crate::cards::standard_deck().to_multiset()
                        && #[trigger] crate::model::initial(picked, deck, 50)
                        == after.games.last().1
            }
        }
    }

    /// Whether `now` is what was told, `was`, with what is told when a
    /// game is asked for as `begun` says: nothing to one who asks without
    /// waiting; to one who asks with too few players, that there are not
    /// enough; and to the players of a game that begins, with whom they
    /// play and how the game stands.
    pub open spec fn begun_told(
        self,
        user: Option<Seq<char>>,
        users: Option<usize>,
        began: bool,
        after: SessionView,
        was: Seq<Message>,
        now: Seq<Message>,
    ) -> bool {
        if user matches Some(u) && !self.waiting.contains(u) {
            now == was
        } else {
            let (picked, rest) = drawn_from(self.waiting, user, users);
            if began {
                exists|told: Option<u64>|
                    now == was + welcome_lines(picked) + #[trigger] after.games.last().1.progress_report(
                        told,
                    )
            } else if picked.len() < 2 && user is Some {
                now == was.push(
                    (
                        user->0,
                        "Unfortunately, there aren't enough players to start a game yet."@,
                    ),
                )
            } else {
                now == was
            }
        }
    }

    /// The text that tells the waiting players that a game can begin.
    pub open spec fn ready_text(self) -> Seq<char> {
        "I have "@ + crate::text::decimal_text((self.waiting.len() - 1) as nat)
            + " other available players, so we can start a game.\nUse `start` to do so. You can optionally pass the number of players to include."@
    }
}

/// The same text for each of the names, in their order.
pub open spec fn to_all(names: Seq<Seq<char>>, text: Seq<char>) -> Seq<Message> {
    Seq::new(names.len(), |i: int| (names[i], text))
}

/// What the players of a game are told when it is ended.
pub open spec fn ended_text(game: GameView) -> Seq<char> {
    game_text(game.names()) + " ended with a score of "@ + decimal_text(game.score() as nat)
        + "/25 "@ + smiley(game.score())
}

/// What a player is told who has left.
pub open spec fn stricken() -> Seq<char> {
    "I have stricken you from all my lists."@
}

/// What the players of a game are told when the named player ends it
/// before its time.
pub open spec fn quit_text(game: GameView, user: Seq<char>) -> Seq<char> {
    "The game was ended prematurely by "@ + mention(user) + " with a score of "@ + decimal_text(
        game.score() as nat,
    ) + "/25"@
}

/// What the players of a game are told when it has become unwinnable.
pub open spec fn unwinnable_text(game: GameView) -> Seq<char> {
    game_text(game.names()) + " became unwinnable after "@ + game.last_move.for_public
}

/// What is told after a turn that made `game` of a game, `told` seconds
/// after the game began, when `after` is the session then: how the game
/// stands, and its end if it is over, or that it has become unwinnable if it
/// has.
pub open spec fn turn_told(game: GameView, told: Option<u64>, after: SessionView) -> Seq<Message> {
    game.progress_report(told) + if game.over() {
        to_all(game.names(), ended_text(game)) + after.ready_lines()
    } else if game.becomes_unwinnable() {
        to_all(game.names(), unwinnable_text(game))
    } else {
        Seq::empty()
    }
}

/// The mentions of those among the first `count` names that are not `who`.
pub open spec fn others_upto(names: Seq<Seq<char>>, who: Seq<char>, count: nat) -> Seq<Seq<char>>
    decreases count,
{
    if count == 0 {
        Seq::empty()
    } else if names[count - 1] != who {
        others_upto(names, who, (count - 1) as nat).push(mention(names[count - 1]))
    } else {
        others_upto(names, who, (count - 1) as nat)
    }
}

/// What the player at place `i` of a new game is told: with how many
/// others the game is, and with whom.
pub open spec fn welcome_text(names: Seq<Seq<char>>, i: int) -> Seq<char> {
    "You are now in a game with "@ + decimal_text((names.len() - 1) as nat) + " other players: "@
        + join_text(others_upto(names, names[i], names.len()), ", "@)
}

/// What the players of a new game are told.
pub open spec fn welcome_lines(names: Seq<Seq<char>>) -> Seq<Message> {
    Seq::new(names.len(), |i: int| (names[i], welcome_text(names, i)))
}

/// Whether `i` is the first place of the name in the list.
pub open spec fn is_place(list: Seq<Seq<char>>, name: Seq<char>, i: int) -> bool {
    &&& 0 <= i < list.len()
    &&& list[i] == name
    &&& forall|j: int| 0 <= j < i ==> list[j] != name
}

/// The first place of the name in the list.
pub open spec fn place_of(list: Seq<Seq<char>>, name: Seq<char>) -> int {
    choose|i: int| is_place(list, name, i)
}

/// How many players a game is to have that was asked for with the given
/// number: that number, or five where none was given or more were asked for.
pub open spec fn seats_wanted(users: Option<usize>) -> int {
    match users {
        Some(n) => if n < 5 {
            n as int
        } else {
            5
        },
        None => 5,
    }
}

/// Who is taken from the queue for a game, and who stays: first the player
/// who asked for it, if one did, then players from the front until the game
/// has as many as wanted or the queue is empty.
pub open spec fn drawn_from(
    waiting: Seq<Seq<char>>,
    user: Option<Seq<char>>,
    users: Option<usize>,
) -> (Seq<Seq<char>>, Seq<Seq<char>>) {
    let (first, rest) = match user {
        Some(u) => (seq![u], waiting.remove(place_of(waiting, u))),
        None => (Seq::empty(), waiting),
    };
    let more = seats_wanted(users) - first.len();
    let k = if more <= 0 {
        0
    } else if more < rest.len() {
        more
    } else {
        rest.len() as int
    };
    (first + rest.take(k), rest.skip(k))
}

/// The name that a line of text holds, if it holds one.
pub open spec fn name_of(user: Option<&str>) -> Option<Seq<char>> {
    match user {
        Some(u) => Some(u@),
        None => None,
    }
}

/// A game that has just begun is not found unwinnable.
pub proof fn fresh_game_is_winnable(players: Seq<Seq<char>>, deck: Seq<crate::cards::CardView>, total: nat)
    ensures
        !crate::model::initial(players, deck, total).becomes_unwinnable(),
        crate::model::initial(players, deck, total).after_check() == crate::model::initial(
            players,
            deck,
            total,
        ),
{
    let g = crate::model::initial(players, deck, total);
    assert forall|c: crate::values::Color, n: crate::values::Number|
        crate::model::count_rank(#[trigger] g.pile(c), n) < #[trigger] n.copies() by {
        assert(g.pile(c) =~= Seq::empty());
    }
}

/// How a game is named in a message: by its players.
pub open spec fn game_text(names: Seq<Seq<char>>) -> Seq<char> {
    "Game with "@ + crate::text::join_text(mentions(names.drop_last()), ", "@) + ", and "@
        + mention(names.last())
}

/// The names as they are written in a message.
pub open spec fn mentions(names: Seq<Seq<char>>) -> Seq<Seq<char>> {
    names.map_values(|n: Seq<char>| mention(n))
}

impl View for Table {
    type V = (nat, GameView);

    closed spec fn view(&self) -> (nat, GameView) {
        (self.id as nat, self.game@)
    }
}

impl Table {
    pub(crate) proof fn unfold(&self)
        ensures
            self@ == (self.id as nat, self.game@),
    {
    }
}

/// The values of a sequence of tables.
pub open spec fn table_views(tables: Seq<Table>) -> Seq<(nat, GameView)> {
    tables.map_values(|t: Table| t@)
}

impl View for Hanabi {
    type V = SessionView;

    closed spec fn view(&self) -> SessionView {
        SessionView {
            me: self.me@,
            channel: self.channel@,
            waiting: texts(self.waiting@),
            ngames: self.ngames as nat,
            games: table_views(self.games@),
        }
    }
}

impl Default for Hanabi {
    /// A session of a program without a name, with nobody waiting and no
    /// game running.
    fn default() -> (h: Hanabi)
        ensures
            h.wf(),
            h@ == (SessionView {
                me: Seq::empty(),
                channel: Seq::empty(),
                waiting: Seq::empty(),
                ngames: 0,
                games: Seq::empty(),
            }),
    {
        Hanabi::new(String::new(), String::new())
    }
}

/// The first place of a name in a list.
pub fn find(list: &Vec<String>, name: &str) -> (at: Option<usize>)
    ensures
        at is Some == texts(list@).contains(name@),
        at matches Some(i) ==> i < list@.len() && texts(list@)[i as int] == name@ && forall|j: int|
            0 <= j < i ==> texts(list@)[j] != name@,
{
    let wanted = String::from_str(name);
    let mut i: usize = 0;
    while i < list.len()
        invariant
            i <= list@.len(),
            wanted@ == name@,
            forall|j: int| 0 <= j < i ==> texts(list@)[j] != name@,
        decreases list.len() - i,
    {
        if list[i] == wanted {
            assert(texts(list@)[i as int] == name@);
            return Some(i);
        }
        i = i + 1;
    }
    None
}

impl Hanabi {
    /// Whether every game obeys the rules of its own.
    pub closed spec fn games_wf(&self) -> bool {
        forall|t: int| 0 <= t < self.games@.len() ==> (#[trigger] self.games@[t]).game.wf()
    }

    /// Whether the session is as it is between two commands.
    pub closed spec fn wf(&self) -> bool {
        self.games_wf() && self@.wf()
    }

    /// Whether the session is as it is between two commands, but that
    /// the game at `t` may have ended.
    pub closed spec fn wf_but(&self, t: int) -> bool {
        self.games_wf() && self@.sound() && self@.others_on(t)
    }

    pub(crate) proof fn unfold(&self)
        ensures
            self@ == (SessionView {
                me: self.me@,
                channel: self.channel@,
                waiting: texts(self.waiting@),
                ngames: self.ngames as nat,
                games: table_views(self.games@),
            }),
            self.games_wf() == forall|t: int|
                0 <= t < self.games@.len() ==> (#[trigger] self.games@[t]).game.wf(),
            self.wf() == (self.games_wf() && self@.wf()),
            forall|t: int| self.wf_but(t) == (self.games_wf() && self@.sound() && self@.others_on(t)),
    {
    }

    /// A session of the program named `me` that announces in `channel`,
    /// with nobody waiting and no game running.
    pub fn new(me: String, channel: String) -> (h: Hanabi)
        ensures
            h.wf(),
            h@ == (SessionView {
                me: me@,
                channel: channel@,
                waiting: Seq::empty(),
                ngames: 0,
                games: Seq::empty(),
            }),
    {
        let h = Hanabi { me, channel, waiting: Vec::new(), ngames: 0, games: Vec::new() };
        assert(texts(h.waiting@) =~= Seq::<Seq<char>>::empty());
        assert(table_views(h.games@) =~= Seq::<(nat, GameView)>::empty());
        h
    }

    /// The place of the game in which the player sits.
    pub fn table_of(&self, user: &str) -> (at: Option<usize>)
        ensures
            at is Some == self@.seated(user@),
            at matches Some(t) ==> t < self@.games.len() && self@.games[t as int].1.names().contains(
                user@,
            ) && forall|s: int| 0 <= s < t ==> !(#[trigger] self@.games[s]).1.names().contains(user@),
    {
        proof {
            self.unfold();
        }
        let mut t: usize = 0;
        while t < self.games.len()
            invariant
                t <= self.games@.len(),
                self@.games == table_views(self.games@),
                forall|s: int| 0 <= s < t ==> !(#[trigger] self@.games[s]).1.names().contains(user@),
            decreases self.games.len() - t,
        {
            proof {
                seated_is_named(self.games@[t as int].game@, user@);
            }
            if self.games[t].game.seat(user).is_some() {
                assert(self@.games[t as int].1.names().contains(user@));
                return Some(t);
            }
            t = t + 1;
        }
        None
    }

    /// Tells the waiting players that a game can begin, once two of them
    /// are there.
    pub fn on_player_change(&self, msgs: &mut Outbox)
        ensures
            final(msgs).sent() == old(msgs).sent() + self@.ready_lines(),
    {
        proof {
            self.unfold();
        }
        let ghost start = msgs.sent();
        let count = self.waiting.len();
        if count < 2 {
            assert(msgs.sent() =~= start + self@.ready_lines());
            return ;
        }
        let mut message = String::from_str("I have ");
        let others = decimal((count - 1) as u128);
        message.append(others.as_str());
        message.append(
            " other available players, so we can start a game.\nUse `start` to do so. You can optionally pass the number of players to include.",
        );
        let mut i: usize = 0;
        let ghost all = to_all(self@.waiting, self@.ready_text());
        assert(msgs.sent() =~= start + all.take(0));
        while i < count
            invariant
                i <= count,
                count == self.waiting@.len(),
                self@.waiting == texts(self.waiting@),
                message@ == self@.ready_text(),
                all == to_all(self@.waiting, self@.ready_text()),
                msgs.sent() == start + all.take(i as int),
            decreases count - i,
        {
            msgs.send(self.waiting[i].as_str(), message.as_str());
            assert(msgs.sent() =~= start + all.take(i + 1));
            i = i + 1;
        }
        assert(all.take(count as int) =~= all);
    }

    /// How the game at `t` is named in a message: by its players.
    pub fn desc_game(&self, t: usize) -> (s: String)
        requires
            self.games_wf(),
            t < self@.games.len(),
        ensures
            s@ == game_text(self@.games[t as int].1.names()),
    {
        proof {
            self.unfold();
            self.games@[t as int].game.wf_view();
        }
        let names = self.games[t].game.players();
        let ghost wanted = self@.games[t as int].1.names();
        assert(texts(names@) =~= wanted);
        let mut front: Vec<String> = Vec::new();
        let mut i: usize = 0;
        while i + 1 < names.len()
            invariant
                i + 1 <= names@.len(),
                front@.len() == i,
                forall|k: int| 0 <= k < i ==> (#[trigger] front@[k])@ == mention(names@[k]@),
            decreases names.len() - i,
        {
            front.push(mention_of(names[i].as_str()));
            i = i + 1;
        }
        assert(texts(front@) =~= mentions(wanted.drop_last()));
        let mut s = String::from_str("Game with ");
        let joined = join(&front, ", ");
        s.append(joined.as_str());
        s.append(", and ");
        let last = mention_of(names[names.len() - 1].as_str());
        s.append(last.as_str());
        s
    }

    /// Ends the game at `t`: tells its players the score and sends them
    /// back to the end of the queue, in an order drawn at random.
    pub fn end_game(&mut self, t: usize, msgs: &mut Outbox)
        requires
            old(self).wf_but(t as int),
            t < old(self)@.games.len(),
        ensures
            final(self).wf(),
            old(self)@.ended(t as int, final(self)@),
            final(msgs).sent() == old(msgs).sent() + old(self)@.ended_told(t as int, final(self)@),
    {
        proof {
            self.unfold();
        }
        let ghost before = self@;
        let ghost start = msgs.sent();
        let desc = self.desc_game(t);
        let table = self.games.remove(t);
        proof {
            assert(table@ == before.games[t as int]);
            assert(table.game.wf());
            table.game.wf_view();
            assert(table_views(self.games@) =~= before.games.remove(t as int));
        }
        let score = table.game.score();
        let mut names = table.game.players();
        let ghost seats = before.games[t as int].1.names();
        assert(texts(names@) =~= seats);
        let mut line = desc;
        line.append(" ended with a score of ");
        let points = decimal(score as u128);
        line.append(points.as_str());
        line.append("/25 ");
        line.append(table.game.score_smiley());
        let ghost ended = to_all(seats, ended_text(before.games[t as int].1));
        assert(line@ == ended_text(before.games[t as int].1));
        let mut i: usize = 0;
        assert(msgs.sent() =~= start + ended.take(0));
        while i < names.len()
            invariant
                i <= names@.len(),
                texts(names@) == seats,
                ended == to_all(seats, line@),
                msgs.sent() == start + ended.take(i as int),
            decreases names.len() - i,
        {
            msgs.send(names[i].as_str(), line.as_str());
            assert(seats[i as int] == names@[i as int]@);
            assert(msgs.sent() =~= start + ended.take(i + 1));
            i = i + 1;
        }
        assert(ended.take(i as int) =~= ended);
        let ghost ordered = names@;
        shuffle(&mut names);
        let ghost mixed = texts(names@);
        let ghost queue = texts(self.waiting@);
        proof {
            same_items_mapped(names@, ordered, |s: String| s@);
            same_items_same_members(mixed, seats);
        }
        self.waiting.append(&mut names);
        proof {
            assert(texts(self.waiting@) =~= queue + mixed);
            assert((queue + mixed).take(queue.len() as int) =~= queue);
            assert((queue + mixed).skip(queue.len() as int) =~= mixed);
            assert forall|i: int, j: int| 0 <= i < queue.len() && 0 <= j < mixed.len() implies queue[i]
                != mixed[j] by {
                assert(mixed.contains(mixed[j]));
                assert(seats.contains(mixed[j]));
                let k = choose|k: int| 0 <= k < seats.len() && seats[k] == mixed[j];
                assert(seats[k] != queue[i]);
            }
            vstd::seq_lib::lemma_no_dup_in_concat(queue, mixed);
            self.unfold();
            let after = self@;
            assert forall|s: int| 0 <= s < after.games.len() implies {
                let g = #[trigger] after.games[s];
                &&& g.0 < after.ngames
                &&& g.1.wf()
                &&& g.1.names().no_duplicates()
                &&& apart(g.1.names(), after.waiting)
                &&& !g.1.over()
            } by {
                let was = if s < t {
                    s
                } else {
                    s + 1
                };
                let g = before.games[was];
                assert(after.games[s] == g);
                assert forall|i: int, j: int|
                    0 <= i < g.1.names().len() && 0 <= j < after.waiting.len() implies g.1.names()[i]
                    != after.waiting[j] by {
                    if j < queue.len() {
                        assert(after.waiting[j] == queue[j]);
                    } else {
                        let m = mixed[j - queue.len()];
                        assert(after.waiting[j] == m);
                        assert(mixed.contains(m));
                        assert(seats.contains(m));
                        let k = choose|k: int| 0 <= k < seats.len() && seats[k] == m;
                        if was < t {
                            assert(apart(before.games[was].1.names(), before.games[t as int].1.names()));
                        } else {
                            assert(apart(before.games[t as int].1.names(), before.games[was].1.names()));
                        }
                        assert(g.1.names()[i] != seats[k]);
                    }
                }
            }
            assert forall|r: int, s: int| 0 <= r < s < after.games.len() implies {
                &&& (#[trigger] after.games[r]).0 != (#[trigger] after.games[s]).0
                &&& apart(after.games[r].1.names(), after.games[s].1.names())
            } by {
                let was_r = if r < t {
                    r
                } else {
                    r + 1
                };
                let was_s = if s < t {
                    s
                } else {
                    s + 1
                };
                assert(after.games[r] == before.games[was_r]);
                assert(after.games[s] == before.games[was_s]);
            }
            assert forall|s: int| 0 <= s < self.games@.len() implies (#[trigger] self.games@[s]).game.wf() by {
                let was = if s < t {
                    s
                } else {
                    s + 1
                };
                assert(self.games@[s] == old(self).games@[was]);
            }
        }
        self.on_player_change(msgs);
        assert(msgs.sent() =~= start + (ended + self@.ready_lines()));
    }

    /// Tells the players of the game at `t` how it stands after a turn.
    /// A game that has ended is taken off and its players go back to the
    /// queue; a game that has just become unwinnable is told so.
    pub fn progress_game(&mut self, t: usize, msgs: &mut Outbox)
        requires
            old(self).wf_but(t as int),
            t < old(self)@.games.len(),
        ensures
            final(self).wf(),
            old(self)@.moved(t as int, old(self)@.games[t as int].1, final(self)@),
            exists|told: Option<u64>|
                final(msgs).sent() == old(msgs).sent() + #[trigger] turn_told(
                    old(self)@.games[t as int].1,
                    told,
                    final(self)@,
                ),
    {
        proof {
            self.unfold();
            self.games@[t as int].unfold();
        }
        let ghost before = self@;
        let ghost start = msgs.sent();
        let ghost game = before.games[t as int].1;
        assert(self.games@[t as int]@ == before.games[t as int]);
        let over = self.games[t].game.progress_game(msgs);
        let ghost told = choose|told: Option<u64>|
            msgs.sent() == start + #[trigger] game.progress_report(told);
        let ghost report = game.progress_report(told);
        if over {
            self.end_game(t, msgs);
            proof {
                let more = before.ended_told(t as int, self@);
                assert((start + report) + more =~= start + (report + more));
                assert(msgs.sent() == start + turn_told(game, told, self@));
            }
            return ;
        }
        let found = self.games[t].game.became_unwinnable();
        proof {
            self.unfold();
            crate::laws::step_keeps_names(game, crate::laws::Step::Play { pos: 0, elapsed: None });
            assert(self.games@[t as int]@ == (before.games[t as int].0, game.after_check()));
            assert(table_views(self.games@) =~= before.games.update(
                t as int,
                (before.games[t as int].0, game.after_check()),
            ));
            let after = self@;
            assert(game.after_check().score() == game.score());
            assert(!game.after_check().over());
            assert forall|s: int| 0 <= s < after.games.len() implies {
                let g = #[trigger] after.games[s];
                &&& g.0 < after.ngames
                &&& g.1.wf()
                &&& g.1.names().no_duplicates()
                &&& apart(g.1.names(), after.waiting)
                &&& !g.1.over()
            } by {
                if s != t {
                    assert(after.games[s] == before.games[s]);
                }
            }
            assert forall|r: int, s: int| 0 <= r < s < after.games.len() implies {
                &&& (#[trigger] after.games[r]).0 != (#[trigger] after.games[s]).0
                &&& apart(after.games[r].1.names(), after.games[s].1.names())
            } by {
                assert(after.games[r].0 == before.games[r].0);
                assert(after.games[s].0 == before.games[s].0);
                assert(after.games[r].1.names() == before.games[r].1.names());
                assert(after.games[s].1.names() == before.games[s].1.names());
            }
            assert forall|s: int| 0 <= s < self.games@.len() implies (#[trigger] self.games@[s]).game.wf() by {
                if s != t {
                    assert(self.games@[s] == old(self).games@[s]);
                }
            }
        }
        if found {
            let mut line = self.desc_game(t);
            line.append(" became unwinnable after ");
            line.append(self.games[t].game.last_move());
            let names = self.games[t].game.players();
            let ghost seats = game.names();
            assert(texts(names@) =~= seats);
            assert(line@ == unwinnable_text(game));
            let ghost lines = to_all(seats, line@);
            let mut i: usize = 0;
            assert(msgs.sent() =~= (start + report) + lines.take(0));
            while i < names.len()
                invariant
                    i <= names@.len(),
                    texts(names@) == seats,
                    lines == to_all(seats, line@),
                    msgs.sent() == (start + report) + lines.take(i as int),
                decreases names.len() - i,
            {
                msgs.send(names[i].as_str(), line.as_str());
                assert(seats[i as int] == names@[i as int]@);
                assert(msgs.sent() =~= (start + report) + lines.take(i + 1));
                i = i + 1;
            }
            proof {
                assert(lines.take(i as int) =~= lines);
                assert((start + report) + lines =~= start + (report + lines));
                assert(msgs.sent() == start + turn_told(game, told, self@));
            }
        } else {
            proof {
                assert(start + report =~= start + (report + Seq::<Message>::empty()));
                assert(msgs.sent() == start + turn_told(game, told, self@));
            }
        }
    }

    /// Sends players who were taken from the queue back to its end.
    fn put_back(&mut self, players: Vec<String>, Ghost(queue): Ghost<Seq<Seq<char>>>)
        requires
            old(self).games_wf(),
            (SessionView { waiting: queue, ..old(self)@ }).wf(),
            (texts(players@) + old(self)@.waiting).to_multiset() == queue.to_multiset(),
        ensures
            final(self).wf(),
            final(self)@ == (SessionView {
                waiting: old(self)@.waiting + texts(players@),
                ..old(self)@
            }),
    {
        proof {
            self.unfold();
        }
        let ghost before = self@;
        let ghost picked = texts(players@);
        let ghost line = before.waiting;
        let mut players = players;
        self.waiting.append(&mut players);
        proof {
            self.unfold();
            let after = self@;
            assert(after.waiting =~= line + picked);
            vstd::seq_lib::lemma_multiset_commutative(line, picked);
            vstd::seq_lib::lemma_multiset_commutative(picked, line);
            assert((line + picked).to_multiset() =~= (picked + line).to_multiset());
            same_items_same_members(line + picked, queue);
            assert(after.games == before.games);
            let whole = SessionView { waiting: queue, ..before };
            assert forall|t: int| 0 <= t < after.games.len() implies apart(
                (#[trigger] after.games[t]).1.names(),
                after.waiting,
            ) by {
                let names = after.games[t].1.names();
                assert(whole.games[t] == after.games[t]);
                assert(apart(names, queue));
                assert forall|a: int, b: int|
                    0 <= a < names.len() && 0 <= b < after.waiting.len() implies names[a]
                    != after.waiting[b] by {
                    let x = after.waiting[b];
                    assert(after.waiting.contains(x));
                    assert(queue.contains(x));
                    let k = choose|k: int| 0 <= k < queue.len() && queue[k] == x;
                    assert(names[a] != queue[k]);
                }
            }
            assert forall|t: int| 0 <= t < after.games.len() implies {
                let g = #[trigger] after.games[t];
                &&& g.0 < after.ngames
                &&& g.1.wf()
                &&& g.1.names().no_duplicates()
                &&& !g.1.over()
            } by {
                assert(whole.games[t] == after.games[t]);
            }
            assert forall|r: int, t: int| 0 <= r < t < after.games.len() implies {
                &&& (#[trigger] after.games[r]).0 != (#[trigger] after.games[t]).0
                &&& apart(after.games[r].1.names(), after.games[t].1.names())
            } by {
                assert(whole.games[r] == after.games[r]);
                assert(whole.games[t] == after.games[t]);
            }
        }
    }

    /// Seats players who were taken from the queue in a new game, and
    /// tells each of them with whom.
    fn seat(&mut self, players: Vec<String>, msgs: &mut Outbox, Ghost(queue): Ghost<Seq<Seq<char>>>)
        requires
            old(self).games_wf(),
            (SessionView { waiting: queue, ..old(self)@ }).wf(),
            (texts(players@) + old(self)@.waiting).to_multiset() == queue.to_multiset(),
            2 <= players@.len() <= 5,
            old(self)@.ngames < usize::MAX,
        ensures
            final(self).wf(),
            final(self)@.me == old(self)@.me,
            final(self)@.channel == old(self)@.channel,
            final(self)@.ngames == old(self)@.ngames + 1,
            final(self)@.waiting == old(self)@.waiting,
            final(self)@.games.len() == old(self)@.games.len() + 1,
            final(self)@.games.drop_last() == old(self)@.games,
            final(self)@.games.last().0 == old(self)@.ngames,
            exists|deck: Seq<crate::cards::CardView>|
                deck.to_multiset() == crate::cards::standard_deck().to_multiset()
                    && #[trigger] crate::model::initial(texts(players@), deck, 50)
                    == final(self)@.games.last().1,
            exists|told: Option<u64>|
                final(msgs).sent() == old(msgs).sent() + welcome_lines(texts(players@))
                    + #[trigger] final(self)@.games.last().1.progress_report(told),
    {
        proof {
            self.unfold();
        }
        let ghost before = self@;
        let ghost start = msgs.sent();
        let ghost picked = texts(players@);
        let ghost line = before.waiting;
        let ghost whole = SessionView { waiting: queue, ..before };
        proof {
            drawn_apart(queue, picked, line);
        }
        let game = Game::new(players.as_slice());
        let ghost fresh = game@;
        proof {
            let deck = choose|deck: Seq<crate::cards::CardView>|
                deck.to_multiset() == crate::cards::standard_deck().to_multiset()
                    && #[trigger] crate::model::initial(picked, deck, 50) == fresh;
            fresh_game_is_winnable(picked, deck, 50);
        }
        let id = self.ngames;
        self.ngames = self.ngames + 1;
        self.games.push(Table { id, game });
        let t = self.games.len() - 1;
        proof {
            self.unfold();
            self.games@[t as int].unfold();
            let after = self@;
            let made = after.games[t as int];
            assert(made == (id as nat, fresh));
            assert(after.games =~= before.games.push(made));
            assert(made.1.names() == picked);
            self.games@[t as int].game.wf_view();
            assert forall|s: int| 0 <= s < after.games.len() implies {
                let g = #[trigger] after.games[s];
                &&& g.0 < after.ngames
                &&& g.1.wf()
                &&& g.1.names().no_duplicates()
                &&& apart(g.1.names(), after.waiting)
                &&& !g.1.over()
            } by {
                if s < t {
                    let g = before.games[s];
                    assert(after.games[s] == g);
                    assert(whole.games[s] == g);
                    assert(apart(g.1.names(), queue));
                    assert forall|a: int, b: int|
                        0 <= a < g.1.names().len() && 0 <= b < line.len() implies g.1.names()[a]
                        != line[b] by {
                        assert(line.contains(line[b]));
                        let k = choose|k: int| 0 <= k < queue.len() && queue[k] == line[b];
                        assert(g.1.names()[a] != queue[k]);
                    }
                }
            }
            assert forall|r: int, s: int| 0 <= r < s < after.games.len() implies {
                &&& (#[trigger] after.games[r]).0 != (#[trigger] after.games[s]).0
                &&& apart(after.games[r].1.names(), after.games[s].1.names())
            } by {
                assert(after.games[r] == before.games[r]);
                assert(whole.games[r] == before.games[r]);
                if s == t {
                    let g = before.games[r];
                    assert(g.0 < before.ngames);
                    assert(apart(g.1.names(), queue));
                    assert forall|a: int, b: int|
                        0 <= a < g.1.names().len() && 0 <= b < picked.len() implies g.1.names()[a]
                        != picked[b] by {
                        assert(picked.contains(picked[b]));
                        let k = choose|k: int| 0 <= k < queue.len() && queue[k] == picked[b];
                        assert(g.1.names()[a] != queue[k]);
                    }
                } else {
                    assert(after.games[s] == before.games[s]);
                    assert(whole.games[s] == before.games[s]);
                }
            }
            assert forall|s: int| 0 <= s < self.games@.len() implies (#[trigger] self.games@[s]).game.wf() by {
                if s < t {
                    assert(self.games@[s] == old(self).games@[s]);
                }
            }
        }
        let count = players.len();
        let ghost welcome = welcome_lines(picked);
        let mut i: usize = 0;
        assert(msgs.sent() =~= start + welcome.take(0));
        while i < count
            invariant
                i <= count,
                count == players@.len(),
                picked == texts(players@),
                welcome == welcome_lines(picked),
                msgs.sent() == start + welcome.take(i as int),
            decreases count - i,
        {
            let mut others: Vec<String> = Vec::new();
            let mut j: usize = 0;
            assert(texts(others@) =~= others_upto(picked, picked[i as int], 0));
            while j < count
                invariant
                    j <= count,
                    i < count,
                    count == players@.len(),
                    picked == texts(players@),
                    texts(others@) == others_upto(picked, picked[i as int], j as nat),
                decreases count - j,
            {
                let ghost sofar = texts(others@);
                assert(picked[j as int] == players@[j as int]@);
                assert(picked[i as int] == players@[i as int]@);
                if players[j] != players[i] {
                    others.push(mention_of(players[j].as_str()));
                    assert(texts(others@) =~= sofar.push(mention(picked[j as int])));
                }
                j = j + 1;
            }
            let mut message = String::from_str("You are now in a game with ");
            let number = decimal((count - 1) as u128);
            message.append(number.as_str());
            message.append(" other players: ");
            let list = join(&others, ", ");
            message.append(list.as_str());
            assert(message@ == welcome_text(picked, i as int));
            msgs.send(players[i].as_str(), message.as_str());
            assert(picked[i as int] == players@[i as int]@);
            assert(msgs.sent() =~= start + welcome.take(i + 1));
            i = i + 1;
        }
        assert(welcome.take(i as int) =~= welcome);
        let ghost seated = self@;
        self.progress_game(t, msgs);
        proof {
            let after = self@;
            assert(after.games =~= seated.games);
            assert(after.games.drop_last() =~= before.games);
            let told = choose|told: Option<u64>|
                msgs.sent() == (start + welcome) + #[trigger] turn_told(fresh, told, after);
            assert(after.games.last().1 == fresh);
            assert(turn_told(fresh, told, after) =~= fresh.progress_report(told));
            assert(msgs.sent() == start + welcome + fresh.progress_report(told));
        }
    }

    /// Begins a game with players from the front of the queue: as many as
    /// `users` says, five where it says nothing, never more than five. A
    /// player who asks for the game is taken first, wherever in the queue;
    /// one who does not wait gets none. With fewer than two players no game
    /// begins: the players go back to the end of the queue, and who asked
    /// is told. Returns whether a game began.
    pub fn start_game(&mut self, user: Option<&str>, users: Option<usize>, msgs: &mut Outbox) -> (began:
        bool)
        requires
            old(self).wf(),
        ensures
            final(self).wf(),
            old(self)@.begun(name_of(user), users, began, final(self)@),
            old(self)@.begun_told(
                name_of(user),
                users,
                began,
                final(self)@,
                old(msgs).sent(),
                final(msgs).sent(),
            ),
    {
        proof {
            self.unfold();
        }
        let ghost before = self@;
        let ghost queue = before.waiting;
        let players = match pick(&mut self.waiting, user, users) {
            Some(players) => players,
            None => {
                proof {
                    self.unfold();
                }
                return false;
            },
        };
        proof {
            self.unfold();
            assert((SessionView { waiting: queue, ..self@ }) == before);
        }
        if players.len() < 2 || self.ngames == usize::MAX {
            if players.len() < 2 {
                if let Some(u) = user {
                    msgs.send(u, "Unfortunately, there aren't enough players to start a game yet.");
                }
            }
            self.put_back(players, Ghost(queue));
            return false;
        }
        self.seat(players, msgs, Ghost(queue));
        true
    }
}

/// Takes players for a game from the queue: first the one who asks for it,
/// if one does, then players from the front until the game has as many as
/// wanted or the queue is empty. A player who asks without waiting gets
/// nothing, and the queue stays as it is.
pub fn pick(waiting: &mut Vec<String>, user: Option<&str>, users: Option<usize>) -> (players: Option<
    Vec<String>,
>)
    ensures
        players is None == (user matches Some(u) && !texts(old(waiting)@).contains(u@)),
        players is None ==> final(waiting)@ == old(waiting)@,
        players matches Some(list) ==> {
            let (picked, rest) = drawn_from(texts(old(waiting)@), name_of(user), users);
            &&& texts(list@) == picked
            &&& texts(final(waiting)@) == rest
            &&& list@.len() <= 5
            &&& (picked + rest).to_multiset() == texts(old(waiting)@).to_multiset()
        },
{
    let ghost queue = texts(waiting@);
    let mut players: Vec<String> = Vec::new();
    assert(texts(players@) + texts(waiting@) =~= queue);
    let ghost first = Seq::<Seq<char>>::empty();
    let ghost rest0 = queue;
    if let Some(u) = user {
        match find(waiting, u) {
            Some(i) => {
                let ghost line = texts(waiting@);
                let p = waiting.remove(i);
                players.push(p);
                proof {
                    assert(texts(waiting@) =~= line.remove(i as int));
                    assert(texts(players@) =~= Seq::<Seq<char>>::empty().push(line[i as int]));
                    moved_keeps_items(Seq::empty(), line, i as int);
                    assert(Seq::<Seq<char>>::empty() + line =~= line);
                    assert(is_place(queue, u@, i as int));
                    let j = place_of(queue, u@);
                    assert(is_place(queue, u@, j));
                    assert(j == i) by {
                        if j < i {
                            assert(queue[j] != u@);
                        } else if i < j {
                            assert(queue[i as int] != u@);
                        }
                    }
                    first = seq![u@];
                    rest0 = queue.remove(i as int);
                    assert(texts(players@) =~= first);
                }
            },
            None => {
                return None;
            },
        }
    }
    let ghost asked = users;
    let users = match users {
        Some(n) => n,
        None => 5,
    };
    assert(texts(players@) =~= first + rest0.take(0));
    assert(texts(waiting@) =~= rest0.skip(0));
    while players.len() < users && players.len() < 5 && waiting.len() > 0
        invariant
            players@.len() <= 5,
            first.len() <= 1,
            (texts(players@) + texts(waiting@)).to_multiset() == queue.to_multiset(),
            first.len() <= players@.len() <= first.len() + rest0.len(),
            users == match asked {
                Some(n) => n,
                None => 5,
            },
            players@.len() == first.len() || players@.len() <= seats_wanted(asked),
            texts(players@) == first + rest0.take(players@.len() - first.len()),
            texts(waiting@) == rest0.skip(players@.len() - first.len()),
        decreases waiting@.len(),
    {
        let ghost line = texts(waiting@);
        let ghost picked = texts(players@);
        let ghost j = players@.len() - first.len();
        let p = waiting.remove(0);
        players.push(p);
        proof {
            assert(texts(waiting@) =~= line.remove(0));
            assert(texts(players@) =~= picked.push(line[0]));
            moved_keeps_items(picked, line, 0);
            assert(line[0] == rest0[j]);
            assert(texts(players@) =~= first + rest0.take(j + 1));
            assert(texts(waiting@) =~= rest0.skip(j + 1));
        }
    }
    proof {
        let (want_picked, want_rest) = drawn_from(queue, name_of(user), asked);
        let j = players@.len() - first.len();
        assert(texts(waiting@).len() == rest0.len() - j);
        assert(want_picked =~= texts(players@));
        assert(want_rest =~= texts(waiting@));
    }
    Some(players)
}

/// Two lists that together hold what a list without repetition holds are
/// each without repetition, share no item, and hold only items of that list.
pub proof fn drawn_apart(queue: Seq<Seq<char>>, picked: Seq<Seq<char>>, line: Seq<Seq<char>>)
    requires
        queue.no_duplicates(),
        (picked + line).to_multiset() == queue.to_multiset(),
    ensures
        picked.no_duplicates(),
        line.no_duplicates(),
        apart(picked, line),
        forall|x: Seq<char>| picked.contains(x) ==> queue.contains(x),
        forall|x: Seq<char>| line.contains(x) ==> queue.contains(x),
{
    same_items_same_members(picked + line, queue);
    assert forall|i: int, j: int| 0 <= i < picked.len() && 0 <= j < line.len() implies picked[i]
        != line[j] by {
        assert((picked + line)[i] == picked[i]);
        assert((picked + line)[picked.len() + j] == line[j]);
    }
    assert(picked.no_duplicates()) by {
        assert forall|i: int, j: int|
            0 <= i < picked.len() && 0 <= j < picked.len() && i != j implies picked[i]
            != picked[j] by {
            assert((picked + line)[i] == picked[i]);
            assert((picked + line)[j] == picked[j]);
        }
    }
    assert(line.no_duplicates()) by {
        assert forall|i: int, j: int| 0 <= i < line.len() && 0 <= j < line.len() && i != j implies line[i]
            != line[j] by {
            assert((picked + line)[picked.len() + i] == line[i]);
            assert((picked + line)[picked.len() + j] == line[j]);
        }
    }
    assert forall|x: Seq<char>| picked.contains(x) implies queue.contains(x) by {
        let i = choose|i: int| 0 <= i < picked.len() && picked[i] == x;
        assert((picked + line)[i] == x);
        assert((picked + line).contains(x));
    }
    assert forall|x: Seq<char>| line.contains(x) implies queue.contains(x) by {
        let i = choose|i: int| 0 <= i < line.len() && line[i] == x;
        assert((picked + line)[picked.len() + i] == x);
        assert((picked + line).contains(x));
    }
}

/// Moving an item from the second of two lists to the end of the first
/// changes nothing about what the two lists hold together.
pub proof fn moved_keeps_items<A>(first: Seq<A>, second: Seq<A>, i: int)
    requires
        0 <= i < second.len(),
    ensures
        (first.push(second[i]) + second.remove(i)).to_multiset() == (first + second).to_multiset(),
{
    let x = second[i];
    vstd::seq_lib::lemma_multiset_commutative(first.push(x), second.remove(i));
    vstd::seq_lib::lemma_multiset_commutative(first, second);
    vstd::seq_lib::to_multiset_build(first, x);
    vstd::seq_lib::to_multiset_remove(second, i);
    vstd::seq_lib::to_multiset_contains(second, x);
    assert(second.contains(x));
    assert((first.push(x) + second.remove(i)).to_multiset() =~= (first + second).to_multiset());
}

} // verus!
