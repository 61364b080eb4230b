//! What the session does with a line that a player has written.

use crate::actions::mention_of;
use crate::laws::{step_keeps_names, Step};
use crate::model::{mention, seated_is_named};
use crate::session::{find, Hanabi, SessionView};
use crate::sink::{Message, Outbox};
use crate::text::{begins_with, decimal, join, stands_at};
use crate::values::{Clue, ClueError, Color, DiscardError, Number, PlayError};
use crate::words::{
    ends_with, is_mention, lowercase, lowercased, name_in, named, parse_usize, parsed_usize,
    words, words_of,
};
use vstd::prelude::*;

verus! {

/// The clue that a word names, if it names one: a color by its name, a
/// number by its name or its digit.
pub open spec fn clue_of(word: Seq<char>) -> Option<Clue> {
    if word == "red"@ {
        Some(Clue::Color(Color::Red))
    } else if word == "green"@ {
        Some(Clue::Color(Color::Green))
    } else if word == "white"@ {
        Some(Clue::Color(Color::White))
    } else if word == "blue"@ {
        Some(Clue::Color(Color::Blue))
    } else if word == "yellow"@ {
        Some(Clue::Color(Color::Yellow))
    } else if word == "one"@ || word == "1"@ {
        Some(Clue::Number(Number::One))
    } else if word == "two"@ || word == "2"@ {
        Some(Clue::Number(Number::Two))
    } else if word == "three"@ || word == "3"@ {
        Some(Clue::Number(Number::Three))
    } else if word == "four"@ || word == "4"@ {
        Some(Clue::Number(Number::Four))
    } else if word == "five"@ || word == "5"@ {
        Some(Clue::Number(Number::Five))
    } else {
        None
    }
}

/// Whether two texts are the same.
pub fn same(a: &str, b: &str) -> (r: bool)
    ensures
        r == (a@ == b@),
{
    String::from_str(a) == String::from_str(b)
}

/// The clue that a word names, if it names one.
pub fn clue_named(word: &str) -> (clue: Option<Clue>)
    ensures
        clue == clue_of(word@),
{
    if same(word, "red") {
        Some(Clue::Color(Color::Red))
    } else if same(word, "green") {
        Some(Clue::Color(Color::Green))
    } else if same(word, "white") {
        Some(Clue::Color(Color::White))
    } else if same(word, "blue") {
        Some(Clue::Color(Color::Blue))
    } else if same(word, "yellow") {
        Some(Clue::Color(Color::Yellow))
    } else if same(word, "one") || same(word, "1") {
        Some(Clue::Number(Number::One))
    } else if same(word, "two") || same(word, "2") {
        Some(Clue::Number(Number::Two))
    } else if same(word, "three") || same(word, "3") {
        Some(Clue::Number(Number::Three))
    } else if same(word, "four") || same(word, "4") {
        Some(Clue::Number(Number::Four))
    } else if same(word, "five") || same(word, "5") {
        Some(Clue::Number(Number::Five))
    } else {
        None
    }
}

/// Whether a word is a mention of a player.
pub fn mentions_player(word: &str) -> (b: bool)
    ensures
        b == is_mention(word@),
{
    proof {
        assert(word@.skip(0) =~= word@);
    }
    stands_at(word, 0, "<@") && ends_with(word, ">")
}

/// An action of a game as a player asks for it.
pub enum Action {
    Clue { to: Seq<char>, clue: Clue },
    Play { pos: int },
    Discard { pos: int },
}

/// What a player in a game asks for with a line of text.
pub enum Request {
    /// Nothing that changes the game: a look at it, a reminder, or a line
    /// that asks for nothing that can be done.
    Nothing,
    /// The end of the game.
    Quit,
    /// An action of the game.
    Act(Action),
}

impl Action {
    /// The action as an attempt made `elapsed` seconds after the move
    /// before.
    pub open spec fn at(self, elapsed: Option<u64>) -> Step {
        match self {
            Action::Clue { to, clue } => Step::Clue { to, clue, elapsed },
            Action::Play { pos } => Step::Play { pos, elapsed },
            Action::Discard { pos } => Step::Discard { pos, elapsed },
        }
    }
}

/// What the first word of a move asks for.
#[derive(Clone, Copy, Debug, PartialEq, Eq, Structural)]
pub enum Order {
    Quit,
    Ping,
    Discards,
    Hands,
    Deck,
    Clue,
    Play,
    Discard,
    Unknown,
}

/// What a word asks for as the first word of a move.
pub open spec fn order_of(word: Seq<char>) -> Order {
    if word == "quit"@ {
        Order::Quit
    } else if word == "ping"@ {
        Order::Ping
    } else if word == "discards"@ {
        Order::Discards
    } else if word == "hands"@ {
        Order::Hands
    } else if word == "deck"@ {
        Order::Deck
    } else if word == "clue"@ {
        Order::Clue
    } else if word == "play"@ {
        Order::Play
    } else if word == "discard"@ {
        Order::Discard
    } else {
        Order::Unknown
    }
}

/// The action that a line asks for whose first word asks for `order` and
/// whose other words are `args`: a clue names a player and what is clued
/// and nothing else, a play or a discard the position of a card, counted
/// from 1, and nothing else.
pub open spec fn action_of(order: Order, args: Seq<Seq<char>>) -> Option<Action> {
    match order {
        Order::Clue => if args.len() == 2 && clue_of(args[1]) is Some {
            Some(Action::Clue { to: named(args[0]), clue: clue_of(args[1])->0 })
        } else {
            None
        },
        Order::Play => if args.len() == 1 && parsed_usize(args[0]) is Some && parsed_usize(
            args[0],
        )->0 > 0 {
            Some(Action::Play { pos: parsed_usize(args[0])->0 - 1 })
        } else {
            None
        },
        Order::Discard => if args.len() == 1 && parsed_usize(args[0]) is Some && parsed_usize(
            args[0],
        )->0 > 0 {
            Some(Action::Discard { pos: parsed_usize(args[0])->0 - 1 })
        } else {
            None
        },
        _ => None,
    }
}

/// What a word asks for as the first word of a move.
pub fn order_named(word: &str) -> (order: Order)
    ensures
        order == order_of(word@),
{
    if same(word, "quit") {
        Order::Quit
    } else if same(word, "ping") {
        Order::Ping
    } else if same(word, "discards") {
        Order::Discards
    } else if same(word, "hands") {
        Order::Hands
    } else if same(word, "deck") {
        Order::Deck
    } else if same(word, "clue") {
        Order::Clue
    } else if same(word, "play") {
        Order::Play
    } else if same(word, "discard") {
        Order::Discard
    } else {
        Order::Unknown
    }
}

/// The position of a card that a player names with the words of a move:
/// the one word there is, read as a number and counted from 1.
pub fn position_named(list: &Vec<String>, next: usize) -> (pos: Option<usize>)
    requires
        next <= list@.len(),
    ensures
        pos == if list@.len() - next == 1 && parsed_usize(list@[next as int]@) is Some
            && parsed_usize(list@[next as int]@)->0 > 0 {
            Some((parsed_usize(list@[next as int]@)->0 - 1) as usize)
        } else {
            None
        },
{
    if list.len() - next != 1 {
        return None;
    }
    match parse_usize(list[next].as_str()) {
        Some(card) => if card > 0 {
            Some(card - 1)
        } else {
            None
        },
        None => None,
    }
}

impl SessionView {
    /// Whether `after` is this session after the line of the player was
    /// dealt with as a move, and `changed` tells whether the game has
    /// changed. A line that asks for nothing leaves everything as it is. The
    /// end of the game ends it. An action that the game refuses leaves
    /// everything as it is; one that it carries out makes the game what the
    /// action makes of it, some time after the move before.
    pub open spec fn carried_out(
        self,
        user: Seq<char>,
        text: Seq<char>,
        changed: bool,
        after: SessionView,
        was: Seq<Message>,
        now: Seq<Message>,
    ) -> bool {
        match self.request(user, text) {
            Request::Nothing => !changed && after == self && now == was + self.answer(user, text),
            Request::Quit => changed && self.ended(self.table_at(user), after) && now == was
                + self.quit_told(self.table_at(user), user, after),
            Request::Act(action) => {
                let t = self.table_at(user);
                let game = self.games[t].1;
                &&& changed == game.made(action.at(None))
                &&& !changed ==> after == self && now == was.push((user, refusal(game, action)))
                &&& changed ==> exists|elapsed: Option<u64>|
                    self.turned(t, #[trigger] game.after(action.at(elapsed)), after, was, now)
            },
        }
    }

    /// Whether `after` is this session after the player whose turn it is
    /// in the game at `t` asked for an action of the kind `order` with the
    /// words `args`, `changed` tells whether the game has changed, and `now`
    /// is what was told, `was`, with what is told of it.
    pub open spec fn acted(
        self,
        t: int,
        user: Seq<char>,
        order: Order,
        args: Seq<Seq<char>>,
        changed: bool,
        after: SessionView,
        was: Seq<Message>,
        now: Seq<Message>,
    ) -> bool {
        match action_of(order, args) {
            None => !changed && after == self && now == was.push((user, malformed(order, args))),
            Some(action) => {
                let game = self.games[t].1;
                &&& changed == game.made(action.at(None))
                &&& !changed ==> after == self && now == was.push((user, refusal(game, action)))
                &&& changed ==> exists|elapsed: Option<u64>|
                    self.turned(t, #[trigger] game.after(action.at(elapsed)), after, was, now)
            },
        }
    }

    /// What the player is told who asks, with a line, for nothing that
    /// changes a game.
    pub open spec fn answer(self, user: Seq<char>, text: Seq<char>) -> Seq<Message> {
        let list = words_of(text);
        if !self.seated(user) {
            seq![(user, "You're not currently in any games, and thus can't make a move."@)]
        } else if list.len() == 0 {
            seq![(user, "You must either clue, play, or discard."@)]
        } else {
            let game = self.games[self.table_at(user)].1;
            let order = if is_mention(list[0]) {
                Order::Clue
            } else {
                order_of(lowercased(list[0]))
            };
            let args = if is_mention(list[0]) {
                list
            } else {
                list.skip(1)
            };
            match order {
                Order::Ping => if game.mover().player == user {
                    seq![(user, "It's your turn... No need to bother the other players."@)]
                } else {
                    seq![
                        (game.mover().player, mention(user) + " pinged you -- it's your turn."@),
                        (user, "I've pinged "@ + mention(game.mover().player) + "."@),
                    ]
                },
                Order::Discards => game.discards_report(user),
                Order::Hands => game.hands_report(user, false),
                Order::Deck => game.deck_report(user),
                Order::Unknown => seq![
                    (
                        user,
                        "What do you mean \""@ + lowercased(list[0])
                            + "\"?! You must either clue, play, or discard."@,
                    ),
                ],
                Order::Quit => Seq::empty(),
                _ => if game.mover().player != user {
                    seq![
                        (
                            user,
                            "It's not your turn yet, it's "@ + mention(game.mover().player) + "'s."@,
                        ),
                    ]
                } else {
                    seq![(user, malformed(order, args))]
                },
            }
        }
    }

    /// What the player asks for with the line. A line that begins with
    /// the mention of a player is a clue for that player; otherwise the
    /// first word, in lowercase, says what is asked for. Only the player
    /// whose turn it is can ask for an action.
    pub open spec fn request(self, user: Seq<char>, text: Seq<char>) -> Request {
        let list = words_of(text);
        if !self.seated(user) || list.len() == 0 {
            Request::Nothing
        } else {
            let game = self.games[self.table_at(user)].1;
            let order = if is_mention(list[0]) {
                Order::Clue
            } else {
                order_of(lowercased(list[0]))
            };
            let args = if is_mention(list[0]) {
                list
            } else {
                list.skip(1)
            };
            if order == Order::Quit {
                Request::Quit
            } else if game.mover().player != user {
                Request::Nothing
            } else {
                match action_of(order, args) {
                    Some(action) => Request::Act(action),
                    None => Request::Nothing,
                }
            }
        }
    }
}

/// What a player is told whose words make no action of the kind asked
/// for.
pub open spec fn malformed(order: Order, args: Seq<Seq<char>>) -> Seq<char> {
    match order {
        Order::Clue => if args.len() != 2 {
            "I don't have a clue what you mean. To clue, you give a player (using @playername), a card specifier (e.g., \"red\" or \"one\"), and nothing else."@
        } else {
            "You're making no sense. A card can't be "@ + args[1] + "..."@
        },
        Order::Play => "I think you played incorrectly there. To play, you just specify which card you'd like to play by specifying its index from the left side of your hand (starting at 1)."@,
        _ => "I'm going to discard that move. To discard, you must specify which card you'd like to play by specifying its index from the left side of your hand (starting at 1)."@,
    }
}

/// What a player is told whose clue the game refuses.
pub open spec fn clue_refusal(error: ClueError) -> Seq<char> {
    match error {
        ClueError::NoSuchPlayer => "The player you specified does not exist. Remember to use Slack's @username tagging."@,
        ClueError::NoMatchingCards => "The card you specified is not in your hand. Remember that card indexing starts at 1."@,
        _ => "There are no clue tokens left, so you cannot clue."@,
    }
}

/// What a player is told who names a card that is not there.
pub open spec fn no_such_card() -> Seq<char> {
    "The card you specified is not in your hand. Remember that card indexing starts at 1."@
}

/// What a player is told who discards while all clue tokens are there.
pub open spec fn no_room() -> Seq<char> {
    "All 8 clue tokens are available, so discard is disallowed."@
}

/// What a player is told whose action the game refuses.
pub open spec fn refusal(game: crate::model::GameView, action: Action) -> Seq<char> {
    match action {
        Action::Clue { to, clue } => match game.clue_result(to, clue) {
            Err(error) => clue_refusal(error),
            Ok(_) => Seq::empty(),
        },
        Action::Play { pos } => no_such_card(),
        Action::Discard { pos } => if game.clues == 8 {
            no_room()
        } else {
            no_such_card()
        },
    }
}

/// In a session as it is between two commands, nobody sits in two games.
pub proof fn one_table(s: SessionView, user: Seq<char>, t: int)
    requires
        s.sound(),
        0 <= t < s.games.len(),
        s.games[t].1.names().contains(user),
    ensures
        s.seated(user),
        s.table_at(user) == t,
{
    let other = s.table_at(user);
    if other != t {
        let a = s.games[t].1.names();
        let b = s.games[other].1.names();
        let i = choose|i: int| 0 <= i < a.len() && a[i] == user;
        let j = choose|j: int| 0 <= j < b.len() && b[j] == user;
        if other < t {
            assert(crate::session::apart(b, a));
            assert(b[j] != a[i]);
        } else {
            assert(crate::session::apart(a, b));
            assert(a[i] != b[j]);
        }
    }
}

/// A session in which one game was replaced by a well-formed game of the
/// same players is sound, and its other games are still on.
pub proof fn game_changed(before: SessionView, after: SessionView, t: int)
    requires
        before.wf(),
        0 <= t < before.games.len(),
        after.waiting == before.waiting,
        after.ngames == before.ngames,
        after.games.len() == before.games.len(),
        forall|s: int| 0 <= s < before.games.len() && s != t ==> after.games[s] == before.games[s],
        after.games[t].0 == before.games[t].0,
        after.games[t].1.wf(),
        after.games[t].1.names() == before.games[t].1.names(),
    ensures
        after.sound(),
        after.others_on(t),
{
    assert forall|s: int| 0 <= s < after.games.len() implies {
        let g = #[trigger] after.games[s];
        &&& g.0 < after.ngames
        &&& g.1.wf()
        &&& g.1.names().no_duplicates()
        &&& crate::session::apart(g.1.names(), after.waiting)
    } by {
        assert(after.games[s].1.names() == before.games[s].1.names());
        assert(after.games[s].0 == before.games[s].0);
    }
    assert forall|r: int, s: int| 0 <= r < s < after.games.len() implies {
        &&& (#[trigger] after.games[r]).0 != (#[trigger] after.games[s]).0
        &&& crate::session::apart(after.games[r].1.names(), after.games[s].1.names())
    } by {
        assert(after.games[r].1.names() == before.games[r].1.names());
        assert(after.games[s].1.names() == before.games[s].1.names());
        assert(after.games[r].0 == before.games[r].0);
        assert(after.games[s].0 == before.games[s].0);
    }
    assert forall|s: int| 0 <= s < after.games.len() && s != t implies !(
    #[trigger] after.games[s]).1.over() by {
        assert(after.games[s] == before.games[s]);
    }
}

impl Hanabi {
    /// Takes note that the game at `t` has changed under an action, and
    /// tells its players how it stands now.
    fn after_turn(&mut self, t: usize, msgs: &mut Outbox, Ghost(before): Ghost<SessionView>)
        requires
            before.wf(),
            t < before.games.len(),
            old(self).games_wf(),
            old(self)@.me == before.me,
            old(self)@.channel == before.channel,
            old(self)@.waiting == before.waiting,
            old(self)@.ngames == before.ngames,
            old(self)@.games.len() == before.games.len(),
            forall|s: int|
                0 <= s < before.games.len() && s != t ==> old(self)@.games[s] == before.games[s],
            old(self)@.games[t as int].0 == before.games[t as int].0,
            old(self)@.games[t as int].1.wf(),
            old(self)@.games[t as int].1.names() == before.games[t as int].1.names(),
        ensures
            final(self).wf(),
            before.turned(
                t as int,
                old(self)@.games[t as int].1,
                final(self)@,
                old(msgs).sent(),
                final(msgs).sent(),
            ),
    {
        proof {
            game_changed(before, self@, t as int);
            self.unfold();
        }
        let ghost mid = self@;
        self.progress_game(t, msgs);
        proof {
            let after = self@;
            assert(mid.games.remove(t as int) =~= before.games.remove(t as int));
            assert(mid.games.update(t as int, (mid.games[t as int].0, mid.games[t as int].1.after_check()))
                =~= before.games.update(
                t as int,
                (before.games[t as int].0, mid.games[t as int].1.after_check()),
            ));
        }
    }

    /// Has the player whose turn it is in the game at `t` give a clue,
    /// and tells the players what came of it.
    pub fn do_clue(&mut self, t: usize, user: &str, to: &str, clue: Clue, msgs: &mut Outbox) -> (changed:
        bool)
        requires
            old(self).wf(),
            t < old(self)@.games.len(),
        ensures
            final(self).wf(),
            changed == old(self)@.games[t as int].1.clue_made(to@, clue),
            !changed ==> final(self)@ == old(self)@ && final(msgs).sent() == old(msgs).sent().push(
                (user@, refusal(old(self)@.games[t as int].1, Action::Clue { to: to@, clue })),
            ),
            changed ==> exists|elapsed: Option<u64>|
                old(self)@.turned(
                    t as int,
                    #[trigger] old(self)@.games[t as int].1.after_clue(to@, clue, elapsed),
                    final(self)@,
                    old(msgs).sent(),
                    final(msgs).sent(),
                ),
    {
        proof {
            self.unfold();
            self.games@[t as int].unfold();
            self.games@[t as int].game.wf_view();
        }
        let ghost before = self@;
        let ghost game = before.games[t as int].1;
        assert(self.games@[t as int]@ == before.games[t as int]);
        assert(!game.over());
        let result = self.games[t].game.clue(to, clue);
        proof {
            self.unfold();
            self.games@[t as int].unfold();
            self.games@[t as int].game.wf_view();
            if game.clue_made(to@, clue) {
                let elapsed = choose|elapsed: Option<u64>|
                    self.games@[t as int].game@ == #[trigger] game.after_clue(to@, clue, elapsed);
                step_keeps_names(game, Step::Clue { to: to@, clue, elapsed });
            }
            assert(self@.games =~= before.games.update(t as int, self.games@[t as int]@));
        }
        match result {
            Ok(_) => {},
            Err(ClueError::GameOver) => {},
            Err(ClueError::NoSuchPlayer) => {
                msgs.send(
                    user,
                    "The player you specified does not exist. Remember to use Slack's @username tagging.",
                );
                assert(self@.games =~= before.games);
                return false;
            },
            Err(ClueError::NoMatchingCards) => {
                msgs.send(
                    user,
                    "The card you specified is not in your hand. Remember that card indexing starts at 1.",
                );
                assert(self@.games =~= before.games);
                return false;
            },
            Err(ClueError::NotEnoughClues) => {
                msgs.send(user, "There are no clue tokens left, so you cannot clue.");
                assert(self@.games =~= before.games);
                return false;
            },
        }
        self.after_turn(t, msgs, Ghost(before));
        true
    }

    /// Has the player whose turn it is in the game at `t` play the card
    /// at `pos`, and tells the players what came of it.
    pub fn do_play(&mut self, t: usize, user: &str, pos: usize, msgs: &mut Outbox) -> (changed: bool)
        requires
            old(self).wf(),
            t < old(self)@.games.len(),
        ensures
            final(self).wf(),
            changed == (pos < old(self)@.games[t as int].1.mover().cards.len()),
            !changed ==> final(self)@ == old(self)@ && final(msgs).sent() == old(msgs).sent().push(
                (user@, no_such_card()),
            ),
            changed ==> exists|elapsed: Option<u64>|
                old(self)@.turned(
                    t as int,
                    #[trigger] old(self)@.games[t as int].1.after_play(pos as int, elapsed),
                    final(self)@,
                    old(msgs).sent(),
                    final(msgs).sent(),
                ),
    {
        proof {
            self.unfold();
            self.games@[t as int].unfold();
            self.games@[t as int].game.wf_view();
        }
        let ghost before = self@;
        let ghost game = before.games[t as int].1;
        assert(self.games@[t as int]@ == before.games[t as int]);
        assert(!game.over());
        let result = self.games[t].game.play(pos);
        proof {
            self.unfold();
            self.games@[t as int].unfold();
            self.games@[t as int].game.wf_view();
            if result != Err::<(), PlayError>(PlayError::NoSuchCard) {
                let elapsed = choose|elapsed: Option<u64>|
                    self.games@[t as int].game@ == #[trigger] game.after_play(pos as int, elapsed);
                step_keeps_names(game, Step::Play { pos: pos as int, elapsed });
            }
            assert(self@.games =~= before.games.update(t as int, self.games@[t as int]@));
        }
        match result {
            Ok(()) => {},
            Err(PlayError::GameOver) => {},
            Err(PlayError::NoSuchCard) => {
                msgs.send(
                    user,
                    "The card you specified is not in your hand. Remember that card indexing starts at 1.",
                );
                assert(self@.games =~= before.games);
                return false;
            },
        }
        self.after_turn(t, msgs, Ghost(before));
        true
    }

    /// Has the player whose turn it is in the game at `t` discard the
    /// card at `pos`, and tells the players what came of it.
    pub fn do_discard(&mut self, t: usize, user: &str, pos: usize, msgs: &mut Outbox) -> (changed:
        bool)
        requires
            old(self).wf(),
            t < old(self)@.games.len(),
        ensures
            final(self).wf(),
            changed == (old(self)@.games[t as int].1.clues < 8 && pos < old(
                self,
            )@.games[t as int].1.mover().cards.len()),
            !changed ==> final(self)@ == old(self)@ && final(msgs).sent() == old(msgs).sent().push(
                (
                    user@,
                    refusal(old(self)@.games[t as int].1, Action::Discard { pos: pos as int }),
                ),
            ),
            changed ==> exists|elapsed: Option<u64>|
                old(self)@.turned(
                    t as int,
                    #[trigger] old(self)@.games[t as int].1.after_discard(pos as int, elapsed),
                    final(self)@,
                    old(msgs).sent(),
                    final(msgs).sent(),
                ),
    {
        proof {
            self.unfold();
            self.games@[t as int].unfold();
            self.games@[t as int].game.wf_view();
        }
        let ghost before = self@;
        let ghost game = before.games[t as int].1;
        assert(self.games@[t as int]@ == before.games[t as int]);
        assert(!game.over());
        let result = self.games[t].game.discard(pos);
        proof {
            self.unfold();
            self.games@[t as int].unfold();
            self.games@[t as int].game.wf_view();
            if result == Ok::<(), DiscardError>(()) || result == Err::<(), DiscardError>(
                DiscardError::GameOver,
            ) {
                let elapsed = choose|elapsed: Option<u64>|
                    self.games@[t as int].game@ == #[trigger] game.after_discard(
                        pos as int,
                        elapsed,
                    );
                step_keeps_names(game, Step::Discard { pos: pos as int, elapsed });
            }
            assert(self@.games =~= before.games.update(t as int, self.games@[t as int]@));
        }
        match result {
            Ok(()) => {},
            Err(DiscardError::GameOver) => {},
            Err(DiscardError::NoSuchCard) => {
                msgs.send(
                    user,
                    "The card you specified is not in your hand. Remember that card indexing starts at 1.",
                );
                assert(self@.games =~= before.games);
                return false;
            },
            Err(DiscardError::MaxClues) => {
                msgs.send(user, "All 8 clue tokens are available, so discard is disallowed.");
                assert(self@.games =~= before.games);
                return false;
            },
        }
        self.after_turn(t, msgs, Ghost(before));
        true
    }

    /// Ends the game at `t` before its time, on behalf of the named
    /// player: its players are told who ended it and with what score, and go
    /// back to the end of the queue in an order drawn at random.
    pub fn quit(&mut self, t: usize, user: &str, msgs: &mut Outbox)
        requires
            old(self).wf(),
            t < old(self)@.games.len(),
        ensures
            final(self).wf(),
            old(self)@.ended(t as int, final(self)@),
            final(msgs).sent() == old(msgs).sent() + old(self)@.quit_told(
                t as int,
                user@,
                final(self)@,
            ),
    {
        proof {
            self.unfold();
            self.games@[t as int].unfold();
            self.games@[t as int].game.wf_view();
        }
        let ghost before = self@;
        let ghost start = msgs.sent();
        let ghost game = before.games[t as int].1;
        assert(self.games@[t as int].game.wf());
        assert(self.games@[t as int]@ == before.games[t as int]);
        let score = self.games[t].game.score();
        let names = self.games[t].game.players();
        let ghost seats = game.names();
        assert(crate::text::texts(names@) =~= seats);
        let mut line = String::from_str("The game was ended prematurely by ");
        let name = mention_of(user);
        line.append(name.as_str());
        line.append(" with a score of ");
        let points = decimal(score as u128);
        line.append(points.as_str());
        line.append("/25");
        assert(line@ == crate::session::quit_text(game, user@));
        let ghost lines = crate::session::to_all(seats, line@);
        let mut i: usize = 0;
        assert(msgs.sent() =~= start + lines.take(0));
        while i < names.len()
            invariant
                i <= names@.len(),
                crate::text::texts(names@) == seats,
                lines == crate::session::to_all(seats, line@),
                msgs.sent() == start + lines.take(i as int),
            decreases names.len() - i,
        {
            msgs.send(names[i].as_str(), line.as_str());
            assert(seats[i as int] == names@[i as int]@);
            assert(msgs.sent() =~= start + lines.take(i + 1));
            i = i + 1;
        }
        assert(lines.take(i as int) =~= lines);
        self.end_game(t, msgs);
        proof {
            let more = before.ended_told(t as int, self@);
            assert((start + lines) + more =~= start + (lines + more));
        }
    }

    /// Reminds the player whose turn it is in the game at `t` on behalf
    /// of the named player.
    fn ping(&self, t: usize, user: &str, msgs: &mut Outbox)
        requires
            self.wf(),
            t < self@.games.len(),
        ensures
            final(msgs).sent() == old(msgs).sent() + ({
                let mover = self@.games[t as int].1.mover().player;
                if mover == user@ {
                    seq![(user@, "It's your turn... No need to bother the other players."@)]
                } else {
                    seq![
                        (mover, mention(user@) + " pinged you -- it's your turn."@),
                        (user@, "I've pinged "@ + mention(mover) + "."@),
                    ]
                }
            }),
    {
        proof {
            self.unfold();
            self.games@[t as int].unfold();
        }
        let ghost start = msgs.sent();
        let ghost mover = self@.games[t as int].1.mover().player;
        assert(self.games@[t as int]@ == self@.games[t as int]);
        let current = self.games[t].game.current_player();
        if same(current, user) {
            msgs.send(user, "It's your turn... No need to bother the other players.");
            assert(msgs.sent() =~= start + seq![
                (user@, "It's your turn... No need to bother the other players."@),
            ]);
        } else {
            let mut line = mention_of(user);
            line.append(" pinged you -- it's your turn.");
            msgs.send(current, line.as_str());
            let mut line = String::from_str("I've pinged ");
            let name = mention_of(current);
            line.append(name.as_str());
            line.append(".");
            msgs.send(user, line.as_str());
            assert(msgs.sent() =~= start + seq![
                (mover, mention(user@) + " pinged you -- it's your turn."@),
                (user@, "I've pinged "@ + mention(mover) + "."@),
            ]);
        }
    }

    /// Carries out what a player in a game has written: an action of the
    /// game, a look at it, a reminder to who is to move, or the end of it.
    /// Returns whether the game has changed.
    pub fn handle_move(&mut self, user: &str, text: &str, msgs: &mut Outbox) -> (changed: bool)
        requires
            old(self).wf(),
        ensures
            final(self).wf(),
            old(self)@.carried_out(
                user@,
                text@,
                changed,
                final(self)@,
                old(msgs).sent(),
                final(msgs).sent(),
            ),
    {
        let ghost start = msgs.sent();
        proof {
            self.unfold();
        }
        let ghost before = self@;
        let ghost reply = before.answer(user@, text@);
        let t = match self.table_of(user) {
            Some(t) => t,
            None => {
                msgs.send(user, "You're not currently in any games, and thus can't make a move.");
                assert(msgs.sent() =~= start + reply);
                return false;
            },
        };
        let ghost game = before.games[t as int].1;
        assert(self.games@[t as int]@ == before.games[t as int]);
        assert(self.games@[t as int].game.wf());
        proof {
            self.games@[t as int].unfold();
            self.games@[t as int].game.wf_view();
            seated_is_named(game, user@);
            one_table(before, user@, t as int);
            assert(!game.over());
        }
        let list = words(text);
        if list.len() == 0 {
            msgs.send(user, "You must either clue, play, or discard.");
            assert(msgs.sent() =~= start + reply);
            return false;
        }
        let implied = mentions_player(list[0].as_str());
        let next: usize = if implied {
            0
        } else {
            1
        };
        let cmd = if implied {
            String::from_str("clue")
        } else {
            lowercase(list[0].as_str())
        };
        let order = if implied {
            Order::Clue
        } else {
            order_named(cmd.as_str())
        };
        let ghost args = crate::text::texts(list@).skip(next as int);
        proof {
            assert(words_of(text@)[0] == list@[0]@) by {
                assert(crate::text::texts(list@)[0] == list@[0]@);
            }
            if implied {
                assert(args =~= words_of(text@));
            }
        }
        match order {
            Order::Quit => {
                self.quit(t, user, msgs);
                true
            },
            Order::Ping => {
                self.ping(t, user, msgs);
                false
            },
            Order::Discards => {
                self.games[t].game.show_discards(user, msgs);
                false
            },
            Order::Hands => {
                self.games[t].game.show_hands(user, false, msgs);
                false
            },
            Order::Deck => {
                self.games[t].game.show_deck(user, msgs);
                false
            },
            Order::Unknown => {
                let mut line = String::from_str("What do you mean \"");
                line.append(cmd.as_str());
                line.append("\"?! You must either clue, play, or discard.");
                msgs.send(user, line.as_str());
                assert(msgs.sent() =~= start + reply);
                false
            },
            Order::Clue | Order::Play | Order::Discard => {
                let current = self.games[t].game.current_player();
                if !same(current, user) {
                    let mut line = String::from_str("It's not your turn yet, it's ");
                    let name = mention_of(current);
                    line.append(name.as_str());
                    line.append("'s.");
                    msgs.send(user, line.as_str());
                    assert(msgs.sent() =~= start + reply);
                    return false;
                }
                let changed = match order {
                    Order::Clue => self.act_clue(t, user, &list, next, msgs),
                    Order::Play => self.act_play(t, user, &list, next, msgs),
                    _ => self.act_discard(t, user, &list, next, msgs),
                };
                proof {
                    if action_of(order, args) is None {
                        assert(msgs.sent() =~= start + reply);
                    }
                }
                changed
            },
        }
    }

    /// Gives the clue that the player whose turn it is in the game at `t`
    /// asks for with the words from place `next` on.
    fn act_clue(
        &mut self,
        t: usize,
        user: &str,
        list: &Vec<String>,
        next: usize,
        msgs: &mut Outbox,
    ) -> (changed: bool)
        requires
            old(self).wf(),
            t < old(self)@.games.len(),
            next <= list@.len(),
        ensures
            final(self).wf(),
            old(self)@.acted(
                t as int,
                user@,
                Order::Clue,
                crate::text::texts(list@).skip(next as int),
                changed,
                final(self)@,
                old(msgs).sent(),
                final(msgs).sent(),
            ),
    {
        proof {
            self.unfold();
        }
        let ghost start = msgs.sent();
        let ghost before = self@;
        let ghost game = before.games[t as int].1;
        let left = list.len() - next;
        let ghost args = crate::text::texts(list@).skip(next as int);
        proof {
            assert(args.len() == left);
            assert forall|k: int| 0 <= k < left implies args[k] == #[trigger] list@[next + k]@ by {
                assert(crate::text::texts(list@)[next + k] == list@[next + k]@);
            }
        }
        if left != 2 {
            msgs.send(
                user,
                "I don't have a clue what you mean. To clue, you give a player (using @playername), a card specifier (e.g., \"red\" or \"one\"), and nothing else.",
            );
            return false;
        }
        let specifier = list[next + 1].as_str();
        let clue = match clue_named(specifier) {
            Some(clue) => clue,
            None => {
                let mut line = String::from_str("You're making no sense. A card can't be ");
                line.append(specifier);
                line.append("...");
                msgs.send(user, line.as_str());
                return false;
            },
        };
        let player = name_in(list[next].as_str());
        let changed = self.do_clue(t, user, player.as_str(), clue, msgs);
        proof {
            let action = Action::Clue { to: player@, clue };
            assert(action_of(Order::Clue, args) == Some(action));
            if changed {
                let elapsed = choose|elapsed: Option<u64>|
                    before.turned(
                        t as int,
                        #[trigger] game.after_clue(player@, clue, elapsed),
                        self@,
                        start,
                        msgs.sent(),
                    );
                assert(before.turned(
                    t as int,
                    game.after(action.at(elapsed)),
                    self@,
                    start,
                    msgs.sent(),
                ));
            }
        }
        changed
    }

    /// Plays the card that the player whose turn it is in the game at `t`
    /// names with the words from place `next` on.
    fn act_play(
        &mut self,
        t: usize,
        user: &str,
        list: &Vec<String>,
        next: usize,
        msgs: &mut Outbox,
    ) -> (changed: bool)
        requires
            old(self).wf(),
            t < old(self)@.games.len(),
            next <= list@.len(),
        ensures
            final(self).wf(),
            old(self)@.acted(
                t as int,
                user@,
                Order::Play,
                crate::text::texts(list@).skip(next as int),
                changed,
                final(self)@,
                old(msgs).sent(),
                final(msgs).sent(),
            ),
    {
        proof {
            self.unfold();
        }
        let ghost start = msgs.sent();
        let ghost before = self@;
        let ghost game = before.games[t as int].1;
        let ghost args = crate::text::texts(list@).skip(next as int);
        proof {
            if list@.len() - next == 1 {
                assert(args[0] == list@[next as int]@) by {
                    assert(crate::text::texts(list@)[next as int] == list@[next as int]@);
                }
            }
        }
        let pos = match position_named(list, next) {
            Some(pos) => pos,
            None => {
                msgs.send(
                    user,
                    "I think you played incorrectly there. To play, you just specify which card you'd like to play by specifying its index from the left side of your hand (starting at 1).",
                );
                return false;
            },
        };
        let changed = self.do_play(t, user, pos, msgs);
        proof {
            let action = Action::Play { pos: pos as int };
            assert(action_of(Order::Play, args) == Some(action));
            assert(!game.lost()) by {
                assert(!game.over());
            }
            if changed {
                let elapsed = choose|elapsed: Option<u64>|
                    before.turned(
                        t as int,
                        #[trigger] game.after_play(pos as int, elapsed),
                        self@,
                        start,
                        msgs.sent(),
                    );
                assert(before.turned(
                    t as int,
                    game.after(action.at(elapsed)),
                    self@,
                    start,
                    msgs.sent(),
                ));
            }
        }
        changed
    }

    /// Discards the card that the player whose turn it is in the game at
    /// `t` names with the words from place `next` on.
    fn act_discard(
        &mut self,
        t: usize,
        user: &str,
        list: &Vec<String>,
        next: usize,
        msgs: &mut Outbox,
    ) -> (changed: bool)
        requires
            old(self).wf(),
            t < old(self)@.games.len(),
            next <= list@.len(),
        ensures
            final(self).wf(),
            old(self)@.acted(
                t as int,
                user@,
                Order::Discard,
                crate::text::texts(list@).skip(next as int),
                changed,
                final(self)@,
                old(msgs).sent(),
                final(msgs).sent(),
            ),
    {
        proof {
            self.unfold();
        }
        let ghost start = msgs.sent();
        let ghost before = self@;
        let ghost game = before.games[t as int].1;
        let ghost args = crate::text::texts(list@).skip(next as int);
        proof {
            if list@.len() - next == 1 {
                assert(args[0] == list@[next as int]@) by {
                    assert(crate::text::texts(list@)[next as int] == list@[next as int]@);
                }
            }
        }
        let pos = match position_named(list, next) {
            Some(pos) => pos,
            None => {
                msgs.send(
                    user,
                    "I'm going to discard that move. To discard, you must specify which card you'd like to play by specifying its index from the left side of your hand (starting at 1).",
                );
                return false;
            },
        };
        let changed = self.do_discard(t, user, pos, msgs);
        proof {
            let action = Action::Discard { pos: pos as int };
            assert(action_of(Order::Discard, args) == Some(action));
            assert(!game.lost()) by {
                assert(!game.over());
            }
            if changed {
                let elapsed = choose|elapsed: Option<u64>|
                    before.turned(
                        t as int,
                        #[trigger] game.after_discard(pos as int, elapsed),
                        self@,
                        start,
                        msgs.sent(),
                    );
                assert(before.turned(
                    t as int,
                    game.after(action.at(elapsed)),
                    self@,
                    start,
                    msgs.sent(),
                ));
            }
        }
        changed
    }

    /// Lets a player join: one who has not joined yet goes to the end of
    /// the queue and is welcomed; one who has is told so. Returns whether
    /// the player was new.
    pub fn join(&mut self, user: &str, msgs: &mut Outbox) -> (joined: bool)
        requires
            old(self).wf(),
        ensures
            final(self).wf(),
            old(self)@.joined_by(user@, joined, final(self)@, old(msgs).sent(), final(msgs).sent()),
    {
        proof {
            self.unfold();
        }
        let ghost before = self@;
        let ghost start = msgs.sent();
        let waits = find(&self.waiting, user).is_some();
        let sits = self.table_of(user).is_some();
        if waits {
            msgs.send(
                user,
                "You can start a game with `start` once there are enough players available.",
            );
            return false;
        }
        if sits {
            msgs.send(user, "You're already playing, but I appreciate your enthusiasm.");
            return false;
        }
        msgs.send(
            user,
            "Welcome! I'll get you started with a game as soon as there are some other players available.",
        );
        self.waiting.push(String::from_str(user));
        proof {
            self.unfold();
            let after = self@;
            assert(after.waiting =~= before.waiting.push(user@));
            assert forall|t: int| 0 <= t < after.games.len() implies crate::session::apart(
                (#[trigger] after.games[t]).1.names(),
                after.waiting,
            ) by {
                let names = after.games[t].1.names();
                assert(crate::session::apart(before.games[t].1.names(), before.waiting));
                assert forall|i: int, j: int|
                    0 <= i < names.len() && 0 <= j < after.waiting.len() implies names[i]
                    != after.waiting[j] by {
                    if j == before.waiting.len() {
                        if names[i] == user@ {
                            assert(names.contains(user@));
                            assert(before.seated(user@));
                        }
                    } else {
                        assert(after.waiting[j] == before.waiting[j]);
                    }
                }
            }
        }
        self.on_player_change(msgs);
        true
    }

    /// Lets a player leave who has joined: a game in which the player sits
    /// is ended for all, and the player is taken off the queue. Returns
    /// whether the player had joined.
    pub fn leave(&mut self, user: &str, msgs: &mut Outbox) -> (left: bool)
        requires
            old(self).wf(),
        ensures
            final(self).wf(),
            old(self)@.left_by(user@, left, final(self)@, old(msgs).sent(), final(msgs).sent()),
    {
        proof {
            self.unfold();
        }
        let ghost before = self@;
        let ghost start = msgs.sent();
        let sits = self.table_of(user);
        let waits = find(&self.waiting, user);
        if sits.is_none() && waits.is_none() {
            return false;
        }
        proof {
            if waits is Some && sits is Some {
                let t = sits->0 as int;
                let i = waits->0 as int;
                let names = before.games[t].1.names();
                let k = choose|k: int| 0 <= k < names.len() && names[k] == user@;
                assert(crate::session::apart(names, before.waiting));
                assert(names[k] != before.waiting[i]);
            }
        }
        if let Some(t) = sits {
            let ghost names = before.games[t as int].1.names();
            proof {
                one_table(before, user@, t as int);
            }
            self.quit(t, user, msgs);
            proof {
                self.unfold();
                let now = self@;
                let back = now.waiting.skip(before.waiting.len() as int);
                vstd::seq_lib::to_multiset_contains(back, user@);
                vstd::seq_lib::to_multiset_contains(names, user@);
                assert(back.contains(user@));
                let k = choose|k: int| 0 <= k < back.len() && back[k] == user@;
                assert(now.waiting[before.waiting.len() + k] == user@);
                assert(now.waiting.contains(user@));
                assert(!now.seated(user@)) by {
                    if now.seated(user@) {
                        let s = choose|s: int|
                            0 <= s < now.games.len() && (#[trigger] now.games[s]).1.names().contains(
                                user@,
                            );
                        let was = if s < t {
                            s
                        } else {
                            s + 1
                        };
                        assert(now.games[s] == before.games[was]);
                        let other = before.games[was].1.names();
                        let a = choose|a: int| 0 <= a < other.len() && other[a] == user@;
                        let b = choose|b: int| 0 <= b < names.len() && names[b] == user@;
                        if was < t {
                            assert(crate::session::apart(other, names));
                            assert(other[a] != names[b]);
                        } else {
                            assert(crate::session::apart(names, other));
                            assert(names[b] != other[a]);
                        }
                    }
                }
            }
        }
        proof {
            self.unfold();
        }
        let ghost mid = self@;
        if let Some(i) = find(&self.waiting, user) {
            self.waiting.remove(i);
            proof {
                self.unfold();
                let after = self@;
                assert(after.waiting =~= mid.waiting.remove(i as int));
                assert(!after.waiting.contains(user@)) by {
                    if after.waiting.contains(user@) {
                        let j = choose|j: int| 0 <= j < after.waiting.len() && after.waiting[j] == user@;
                        let was = if j < i {
                            j
                        } else {
                            j + 1
                        };
                        assert(mid.waiting[was] == user@);
                        assert(mid.waiting[i as int] == user@);
                    }
                }
                assert(after.waiting.no_duplicates()) by {
                    assert forall|a: int, b: int|
                        0 <= a < after.waiting.len() && 0 <= b < after.waiting.len() && a
                            != b implies after.waiting[a] != after.waiting[b] by {
                        let wa = if a < i {
                            a
                        } else {
                            a + 1
                        };
                        let wb = if b < i {
                            b
                        } else {
                            b + 1
                        };
                        assert(after.waiting[a] == mid.waiting[wa]);
                        assert(after.waiting[b] == mid.waiting[wb]);
                    }
                }
                assert forall|t: int| 0 <= t < after.games.len() implies crate::session::apart(
                    (#[trigger] after.games[t]).1.names(),
                    after.waiting,
                ) by {
                    let names = after.games[t].1.names();
                    assert(crate::session::apart(mid.games[t].1.names(), mid.waiting));
                    assert forall|a: int, b: int|
                        0 <= a < names.len() && 0 <= b < after.waiting.len() implies names[a]
                        != after.waiting[b] by {
                        let wb = if b < i {
                            b
                        } else {
                            b + 1
                        };
                        assert(after.waiting[b] == mid.waiting[wb]);
                    }
                }
                assert(crate::session::is_place(mid.waiting, user@, i as int));
                let at = crate::session::place_of(mid.waiting, user@);
                assert(crate::session::is_place(mid.waiting, user@, at));
                assert(at == i) by {
                    if at < i {
                        assert(mid.waiting[at] != user@);
                    } else if i < at {
                        assert(mid.waiting[i as int] != user@);
                    }
                }
                assert(after == mid.without(user@));
            }
        }
        msgs.send(user, "I have stricken you from all my lists.");
        true
    }

    /// Tells the player how many games run and who plays in them, and who
    /// waits.
    pub fn list_players(&self, user: &str, msgs: &mut Outbox)
        requires
            self.wf(),
        ensures
            final(msgs).sent() == old(msgs).sent().push((user@, self@.roster())),
    {
        proof {
            self.unfold();
        }
        let mut seats: u128 = 0;
        let mut t: usize = 0;
        while t < self.games.len()
            invariant
                t <= self.games@.len(),
                seats <= 5 * t,
                seats == self@.seats_upto(t as nat),
                self.wf(),
            decreases self.games.len() - t,
        {
            proof {
                self.unfold();
                self.games@[t as int].unfold();
                self.games@[t as int].game.wf_view();
            }
            assert(self.games@[t as int]@ == self@.games[t as int]);
            let names = self.games[t].game.players();
            seats = seats + names.len() as u128;
            t = t + 1;
        }
        let mut out = String::from_str("There are currently ");
        let games = decimal(self.games.len() as u128);
        out.append(games.as_str());
        out.append(" games and ");
        let joined = decimal(self.waiting.len() as u128 + seats);
        out.append(joined.as_str());
        out.append(" players:");
        let mut t: usize = 0;
        while t < self.games.len()
            invariant
                t <= self.games@.len(),
                self.wf(),
                out@ == self@.roster_upto(t as nat),
            decreases self.games.len() - t,
        {
            proof {
                self.unfold();
                self.games@[t as int].unfold();
            }
            assert(self.games@[t as int]@ == self@.games[t as int]);
            out.append("\n#");
            let id = decimal(self.games[t].id as u128);
            out.append(id.as_str());
            out.append(": <@");
            let names = self.games[t].game.players();
            assert(crate::text::texts(names@) =~= self@.games[t as int].1.names());
            let names = join(&names, ">, <@");
            out.append(names.as_str());
            out.append(">");
            t = t + 1;
        }
        if self.waiting.len() == 0 {
            out.append("\nNo players waiting.");
        } else {
            out.append("\nWaiting: ");
            let mut names: Vec<String> = Vec::new();
            let mut i: usize = 0;
            while i < self.waiting.len()
                invariant
                    i <= self.waiting@.len(),
                    names@.len() == i,
                    forall|k: int|
                        0 <= k < i ==> (#[trigger] names@[k])@ == crate::model::mention(
                            self.waiting@[k]@,
                        ),
                decreases self.waiting.len() - i,
            {
                names.push(mention_of(self.waiting[i].as_str()));
                i = i + 1;
            }
            assert(crate::text::texts(names@) =~= crate::session::mentions(self@.waiting));
            let names = join(&names, ", ");
            out.append(names.as_str());
        }
        msgs.send(user, out.as_str());
    }

    /// Tells the player what can be done: how to play, for one who has
    /// joined, and how to join for one who has not.
    pub fn help(&self, user: &str, msgs: &mut Outbox)
        ensures
            final(msgs).sent() == old(msgs).sent().push(
                (
                    user@,
                    if self@.playing(user@) {
                        help_playing()
                    } else {
                        help_new()
                    },
                ),
            ),
    {
        proof {
            self.unfold();
        }
        let playing = find(&self.waiting, user).is_some() || self.table_of(user).is_some();
        if playing {
            msgs.send(
                user,
                "Oh, so you're confused? I'm so sorry to hear that.\n\nOn your turn, you can `play`, `discard`, or `clue`. If you `play` or `discard`, you must also specify which card using the card's position from the left-hand side, starting at one. To `clue`, you give the player you are cluing (`@player`), and the clue you want to give (e.g., `red`, `one`).\n\nTo look around, you can use `hands`, `deck`, or `discards`. `hands` will tell you what each player has and knows, `deck` will show you the number of cards left, and `discards` will show you the discard pile. If everything goes south, you can always use `quit` to give up.\n\nShould you no longer wish to play, write `leave`.\n\nIf you want more information, try <https://github.com/jonhoo/hanabot>.",
            );
        } else {
            msgs.send(
                user,
                "Welcome to the game Hanabi!\n                 \nAll gameplay happens through your interactions with this bot. \nTo indicate your interest in joining a game, type `join`. \nOnce you've done so, you can type `help` again to get game-specific help. \n\nIf you want more information, try <https://en.wikipedia.org/wiki/Hanabi_(card_game)> or <https://github.com/jonhoo/hanabot>.",
            );
        }
    }

    /// Takes a line that a player has written to the program and does what
    /// it asks for: to join or leave, to list the players, to help, to begin
    /// a game, or a move in the player's game. Returns whether anything has
    /// changed that is worth keeping.
    pub fn on_dm_recv(&mut self, t: &str, u: &str, messages: &mut Outbox) -> (save: bool)
        requires
            old(self).wf(),
        ensures
            final(self).wf(),
            old(self)@.received(
                t@,
                u@,
                save,
                final(self)@,
                old(messages).sent(),
                final(messages).sent(),
            ),
    {
        proof {
            self.unfold();
        }
        let list = words(t);
        if list.len() == 0 {
            return false;
        }
        let command = list[0].as_str();
        proof {
            reveal_strlit("<@");
            assert(command@.skip(0) =~= command@);
        }
        if stands_at(command, 0, "<@") && stands_at(command, 2, self.me.as_str()) {
            let mut line = String::from_str("You don't need to prefix your commands with ");
            line.append(command);
            line.append(" when DMing me :)");
            messages.send(u, line.as_str());
            return false;
        }
        let cmd = lowercase(command);
        let cmd = cmd.as_str();
        let ghost before = self@;
        assert(words_of(t@)[0] == list@[0]@) by {
            assert(crate::text::texts(list@)[0] == list@[0]@);
        }
        if same(cmd, "join") {
            self.join(u, messages)
        } else if same(cmd, "leave") {
            self.leave(u, messages)
        } else if same(cmd, "players") {
            self.list_players(u, messages);
            assert(self@ == before);
            false
        } else if same(cmd, "help") {
            self.help(u, messages);
            assert(self@ == before);
            false
        } else {
            let sits = self.table_of(u).is_some();
            let waits = find(&self.waiting, u).is_some();
            if sits {
                self.handle_move(u, t, messages)
            } else if waits && same(cmd, "start") {
                let number = if list.len() > 1 {
                    parse_usize(list[1].as_str())
                } else {
                    None
                };
                if list.len() > 1 && number.is_none() {
                    messages.send(
                        u,
                        "You can only give an integral number of players to start a game with",
                    );
                    false
                } else {
                    self.start_game(Some(u), number, messages)
                }
            } else if waits {
                messages.send(u, "You're not in a game at the moment, so can't make a move.");
                self.handle_move(u, t, messages)
            } else {
                messages.send(u, "I have no idea what you mean. Try `help` :)");
                false
            }
        }
    }
}

impl SessionView {
    /// Whether `after` is this session after the line of the player was
    /// dealt with, `save` tells whether anything has changed that is worth
    /// keeping, and `now` is what was told, `was`, with what the line is
    /// answered with.
    ///
    /// An empty line asks for nothing. A line that begins with a mention of
    /// the program is told that this is not needed. Else the first word, in
    /// lowercase, says what is asked for: to join, to leave, the list of
    /// players, or help. Any other line of a player in a game is a move; one
    /// of a waiting player begins a game if it asks to `start`, with as many
    /// players as its second word says; and any other is answered with what
    /// can be done.
    pub open spec fn received(
        self,
        text: Seq<char>,
        user: Seq<char>,
        save: bool,
        after: SessionView,
        was: Seq<Message>,
        now: Seq<Message>,
    ) -> bool {
        let list = words_of(text);
        if list.len() == 0 {
            !save && after == self && now == was
        } else if addressed(list, self.me) {
            !save && after == self && now == was.push(
                (
                    user,
                    "You don't need to prefix your commands with "@ + list[0]
                        + " when DMing me :)"@,
                ),
            )
        } else if lowercased(list[0]) == "join"@ {
            self.joined_by(user, save, after, was, now)
        } else if lowercased(list[0]) == "leave"@ {
            self.left_by(user, save, after, was, now)
        } else if lowercased(list[0]) == "players"@ {
            !save && after == self && now == was.push((user, self.roster()))
        } else if lowercased(list[0]) == "help"@ {
            !save && after == self && now == was.push(
                (
                    user,
                    if self.playing(user) {
                        help_playing()
                    } else {
                        help_new()
                    },
                ),
            )
        } else if self.seated(user) {
            self.carried_out(user, text, save, after, was, now)
        } else if self.waiting.contains(user) && lowercased(list[0]) == "start"@ {
            if list.len() > 1 && parsed_usize(list[1]) is None {
                !save && after == self && now == was.push(
                    (
                        user,
                        "You can only give an integral number of players to start a game with"@,
                    ),
                )
            } else {
                let users = if list.len() > 1 {
                    parsed_usize(list[1])
                } else {
                    None
                };
                self.begun(Some(user), users, save, after) && self.begun_told(
                    Some(user),
                    users,
                    save,
                    after,
                    was,
                    now,
                )
            }
        } else if self.waiting.contains(user) {
            !save && after == self && now == was.push(
                (user, "You're not in a game at the moment, so can't make a move."@),
            ) + self.answer(user, text)
        } else {
            !save && after == self && now == was.push(
                (user, "I have no idea what you mean. Try `help` :)"@),
            )
        }
    }
}

/// Whether the first word of a line is a mention of the program itself.
pub open spec fn addressed(list: Seq<Seq<char>>, me: Seq<char>) -> bool {
    list.len() > 0 && begins_with(list[0], "<@"@) && begins_with(list[0].skip(2), me)
}

/// What a player who has joined is told for help.
pub open spec fn help_playing() -> Seq<char> {
    "Oh, so you're confused? I'm so sorry to hear that.\n\nOn your turn, you can `play`, `discard`, or `clue`. If you `play` or `discard`, you must also specify which card using the card's position from the left-hand side, starting at one. To `clue`, you give the player you are cluing (`@player`), and the clue you want to give (e.g., `red`, `one`).\n\nTo look around, you can use `hands`, `deck`, or `discards`. `hands` will tell you what each player has and knows, `deck` will show you the number of cards left, and `discards` will show you the discard pile. If everything goes south, you can always use `quit` to give up.\n\nShould you no longer wish to play, write `leave`.\n\nIf you want more information, try <https://github.com/jonhoo/hanabot>."@
}

/// What a player who has not joined is told for help.
pub open spec fn help_new() -> Seq<char> {
    "Welcome to the game Hanabi!\n                 \nAll gameplay happens through your interactions with this bot. \nTo indicate your interest in joining a game, type `join`. \nOnce you've done so, you can type `help` again to get game-specific help. \n\nIf you want more information, try <https://en.wikipedia.org/wiki/Hanabi_(card_game)> or <https://github.com/jonhoo/hanabot>."@
}

} // verus!
