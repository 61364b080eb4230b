//! Telling the players how the game stands: each report is written into an
//! outbox, message by message.

use crate::actions::mention_of;
use crate::cards::{views, Card};
use crate::game::Game;
use crate::clock;
use crate::model::{holder_is_seated, mention, seated};
use crate::report::{
    bar, deck_line, face_texts, gauge, known_texts, numbered_known_texts, pile_line, repeated,
};
use crate::sink::Outbox;
use crate::text::{capitalise, decimal, dur, join, replace, texts};
use crate::values::Color;
use vstd::prelude::*;

verus! {

/// The faces of the cards, as text.
pub fn face_list(cards: &Vec<Card>) -> (list: Vec<String>)
    ensures
        texts(list@) == face_texts(views(cards@)),
{
    let mut list: Vec<String> = Vec::new();
    let mut i: usize = 0;
    while i < cards.len()
        invariant
            i <= cards@.len(),
            list@.len() == i,
            forall|k: int| 0 <= k < i ==> (#[trigger] list@[k])@ == cards@[k]@.text(),
        decreases cards.len() - i,
    {
        list.push(cards[i].to_string());
        i = i + 1;
    }
    assert(texts(list@) =~= face_texts(views(cards@)));
    list
}

/// What the holder knows of each of the cards, as text.
pub fn known_list(cards: &Vec<Card>) -> (list: Vec<String>)
    ensures
        texts(list@) == known_texts(views(cards@)),
{
    let mut list: Vec<String> = Vec::new();
    let mut i: usize = 0;
    while i < cards.len()
        invariant
            i <= cards@.len(),
            list@.len() == i,
            forall|k: int| 0 <= k < i ==> (#[trigger] list@[k])@ == cards@[k]@.known_text(),
        decreases cards.len() - i,
    {
        list.push(cards[i].known());
        i = i + 1;
    }
    assert(texts(list@) =~= known_texts(views(cards@)));
    list
}

/// What the holder knows of each of the cards, each behind its position
/// counted from 1.
pub fn numbered_known_list(cards: &Vec<Card>) -> (list: Vec<String>)
    ensures
        texts(list@) == numbered_known_texts(views(cards@)),
{
    let mut list: Vec<String> = Vec::new();
    let mut i: usize = 0;
    while i < cards.len()
        invariant
            i <= cards@.len(),
            list@.len() == i,
            forall|k: int|
                0 <= k < i ==> (#[trigger] list@[k])@ == numbered_known_texts(views(cards@))[k],
        decreases cards.len() - i,
    {
        let mut entry = decimal((i + 1) as u128);
        entry.append(": ");
        let known = cards[i].known();
        entry.append(known.as_str());
        list.push(entry);
        i = i + 1;
    }
    assert(texts(list@) =~= numbered_known_texts(views(cards@)));
    list
}

impl Game {
    /// Tells the named player of one hand: whose it is and, for another
    /// player's hand, what it holds.
    fn show_hand(&self, user: &str, me: usize, hand: usize, skip_self: bool, cli: &mut Outbox)
        requires
            self.wf(),
            me < self@.hands.len(),
            hand < self@.hands.len(),
        ensures
            final(cli).sent() == old(cli).sent() + self@.hand_lines(
                user@,
                me as int,
                hand as int,
                skip_self,
            ),
    {
        proof {
            self.unfold();
        }
        let ghost start = cli.sent();
        let owner = &self.hands[hand];
        assert(owner@ == self@.hands[hand as int]);
        let mut title = mention_of(owner.player.as_str());
        if hand == self.turn {
            title.append(" &lt;-- current turn");
        }
        cli.send(user, title.as_str());
        let known_cards = known_list(&owner.cards);
        let mut known = join(&known_cards, "  |  ");
        known.append(" known");
        if hand == me {
            if !skip_self {
                cli.send(user, known.as_str());
            }
        } else {
            let faces = face_list(&owner.cards);
            let mut line = join(&faces, "  |  ");
            line.append(" in hand\n");
            line.append(known.as_str());
            cli.send(user, line.as_str());
        }
        proof {
            let want = self@.hand_lines(user@, me as int, hand as int, skip_self);
            let known_want = crate::text::join_text(known_texts(owner@.cards), bar()) + " known"@;
            assert(known@ == known_want);
            assert(cli.sent() =~= start + want);
        }
    }

    /// Shows the named player every hand in turn order, beginning with the
    /// player's own: the cards of the others and what each holder knows.
    pub fn show_hands(&self, user: &str, skip_self: bool, cli: &mut Outbox)
        requires
            self.wf(),
            seated(self@.hands, user@),
        ensures
            final(cli).sent() == old(cli).sent() + self@.hands_report(user@, skip_self),
    {
        let ghost start = cli.sent();
        let me = match self.seat(user) {
            Some(me) => me,
            None => 0,
        };
        proof {
            self.unfold();
        }
        cli.send(user, "The other players' hands (in turn order) are:");
        let ghost head = start.push((user@, "The other players' hands (in turn order) are:"@));
        let players = self.hands.len();
        let mut i: usize = 0;
        assert(cli.sent() =~= head + self@.hands_upto(user@, me as int, 0, skip_self));
        while i < players
            invariant
                self.wf(),
                i <= players,
                players == self@.hands.len(),
                2 <= players <= 5,
                me < players,
                cli.sent() == head + self@.hands_upto(user@, me as int, i as nat, skip_self),
            decreases players - i,
        {
            let hand = (me + i) % players;
            let ghost before = cli.sent();
            self.show_hand(user, me, hand, skip_self, cli);
            proof {
                let sofar = self@.hands_upto(user@, me as int, i as nat, skip_self);
                let more = self@.hand_lines(user@, me as int, hand as int, skip_self);
                assert(self@.hands_upto(user@, me as int, (i + 1) as nat, skip_self) == sofar
                    + more);
                assert((head + sofar) + more =~= head + (sofar + more));
            }
            i = i + 1;
        }
        proof {
            let all = self@.hands_upto(user@, me as int, players as nat, skip_self);
            assert(head =~= start + seq![(user@, "The other players' hands (in turn order) are:"@)]);
            assert((start + seq![(user@, "The other players' hands (in turn order) are:"@)]) + all
                =~= start + (seq![(user@, "The other players' hands (in turn order) are:"@)]
                + all));
        }
    }

    /// Shows the named player what the holder of the hand at `hand`
    /// knows of it; with `index`, each card behind its position.
    pub fn show_known(&self, hand: usize, user: &str, cli: &mut Outbox, index: bool)
        requires
            hand < self@.hands.len(),
        ensures
            final(cli).sent() == old(cli).sent() + self@.known_report(hand as int, user@, index),
    {
        proof {
            self.unfold();
        }
        let ghost start = cli.sent();
        let owner = &self.hands[hand];
        assert(owner@ == self@.hands[hand as int]);
        let known = if index {
            numbered_known_list(&owner.cards)
        } else {
            known_list(&owner.cards)
        };
        let line = join(&known, "  |  ");
        cli.send(user, line.as_str());
        assert(cli.sent() =~= start + self@.known_report(hand as int, user@, index));
    }

    /// Shows the named player what the player written as `player` knows
    /// of the own hand.
    pub fn show_clues(&self, user: &str, player: &str, cli: &mut Outbox)
        ensures
            final(cli).sent() == old(cli).sent() + self@.clues_report(user@, player@),
    {
        let ghost start = cli.sent();
        let name = crate::words::name_in(player);
        match self.seat(name.as_str()) {
            None => {
                let mut line = String::from_str("there is no player in this game named ");
                line.append(player);
                cli.send(user, line.as_str());
                assert(cli.sent() =~= start + self@.clues_report(user@, player@));
            },
            Some(p) => {
                proof {
                    self.unfold();
                }
                assert(self.hands@[p as int]@ == self@.hands[p as int]);
                let mut line = mention_of(self.hands[p].player.as_str());
                line.append(" knows the following about their hand:");
                cli.send(user, line.as_str());
                let ghost mid = cli.sent();
                self.show_known(p, user, cli, false);
                proof {
                    let first = seq![
                        (
                            user@,
                            mention(self@.hands[p as int].player)
                                + " knows the following about their hand:"@,
                        ),
                    ];
                    let second = self@.known_report(p as int, user@, false);
                    assert(mid =~= start + first);
                    assert((start + first) + second =~= start + (first + second));
                }
            },
        }
    }

    /// Shows the named player the discard pile: one line for each color
    /// that has cards in it, with their numbers in increasing order.
    pub fn show_discards(&self, user: &str, cli: &mut Outbox)
        requires
            self.wf(),
        ensures
            final(cli).sent() == old(cli).sent() + self@.discards_report(user@),
    {
        proof {
            self.unfold();
        }
        let ghost start = cli.sent();
        let mut any = false;
        let mut c: usize = 0;
        while c < 5
            invariant
                c <= 5,
                self.discard@.len() == 5,
                any == exists|k: int| 0 <= k < c && (#[trigger] self.discard@[k])@.len() > 0,
            decreases 5 - c,
        {
            if self.discard[c].len() > 0 {
                any = true;
            }
            c = c + 1;
        }
        proof {
            if any {
                let k = choose|k: int| 0 <= k < 5 && (#[trigger] self.discard@[k])@.len() > 0;
                assert(self@.discard.dom().contains(Color::at(k)));
            } else {
                assert forall|color: Color| !self@.discard.dom().contains(color) by {
                    assert(self.discard@[color.ord()]@.len() == 0);
                }
            }
        }
        if !any {
            cli.send(user, "The discard pile is empty.");
            assert(cli.sent() =~= start + self@.discards_report(user@));
            return ;
        }
        cli.send(user, "The discard pile contains the following cards:");
        let ghost head = start.push((user@, "The discard pile contains the following cards:"@));
        assert(cli.sent() =~= head + self@.piles_upto(user@, 0));
        let mut c: usize = 0;
        while c < 5
            invariant
                c <= 5,
                self.wf(),
                cli.sent() == head + self@.piles_upto(user@, c as nat),
            decreases 5 - c,
        {
            proof {
                self.unfold();
            }
            let ghost color = Color::at(c as int);
            let ghost sofar = self@.piles_upto(user@, c as nat);
            let cards = &self.discard[c];
            if cards.len() > 0 {
                let mut out = Color::from_index(c).to_string();
                out.append(" ");
                let mut i: usize = 0;
                while i < cards.len()
                    invariant
                        i <= cards@.len(),
                        out@ == pile_line(color, views(cards@), i as nat),
                    decreases cards.len() - i,
                {
                    let number = cards[i].number.to_string();
                    out.append(number.as_str());
                    i = i + 1;
                }
                cli.send(user, out.as_str());
                proof {
                    assert(self@.discard[color] == views(cards@));
                    let line = seq![(user@, out@)];
                    assert(self@.piles_upto(user@, (c + 1) as nat) == sofar + line);
                    assert((head + sofar).push((user@, out@)) =~= head + (sofar + line));
                }
            } else {
                proof {
                    assert(!self@.discard.dom().contains(color));
                    assert(self@.piles_upto(user@, (c + 1) as nat) =~= sofar);
                }
            }
            c = c + 1;
        }
        proof {
            let title = seq![(user@, "The discard pile contains the following cards:"@)];
            let all = self@.piles_upto(user@, 5);
            assert(head =~= start + title);
            assert((start + title) + all =~= start + (title + all));
        }
    }

    /// Shows the named player how much of the deck is left, as a gauge of
    /// ten places and a count.
    pub fn show_deck(&self, user: &str, cli: &mut Outbox)
        requires
            self.wf(),
        ensures
            final(cli).sent() == old(cli).sent() + self@.deck_report(user@),
    {
        proof {
            self.unfold();
        }
        let ghost start = cli.sent();
        if self.deck.is_empty() {
            cli.send(user, "The deck is depleted.");
            assert(cli.sent() =~= start + self@.deck_report(user@));
            return ;
        }
        let len = self.deck.len();
        let of = self.deck.of();
        let left = deck_gauge(len, of);
        let mut progress = String::from_str("`[");
        let dashes = repeat("-", 10 - left);
        progress.append(dashes.as_str());
        let blanks = repeat(" ", left);
        progress.append(blanks.as_str());
        progress.append("]` ");
        let count = decimal(len as u128);
        progress.append(count.as_str());
        progress.append(" cards left");
        proof {
            reveal_strlit("- ");
        }
        let line = replace(progress.as_str(), "- ", "> ");
        cli.send(user, line.as_str());
        assert(line@ == deck_line(len as nat, of as nat));
        assert(cli.sent() =~= start + self@.deck_report(user@));
    }

    /// Shows the player at hand index `hand` how the game stands: whose
    /// turn it is and what tokens are left, and, where it is that player's
    /// turn, the stacks, what the player knows of the own hand, and the hands
    /// of the others.
    pub fn print_game_state(&self, hand: usize, cli: &mut Outbox)
        requires
            self.wf(),
            hand < self@.hands.len(),
        ensures
            final(cli).sent() == old(cli).sent() + self@.state_report(hand as int),
    {
        proof {
            self.unfold();
        }
        let ghost start = cli.sent();
        let owner = &self.hands[hand];
        assert(owner@ == self@.hands[hand as int]);
        let user = owner.player.as_str();
        let last = if self.last_turns.is_some() {
            " *last*"
        } else {
            ""
        };
        proof {
            reveal_strlit("");
            assert(""@ =~= Seq::<char>::empty());
        }
        let mut setup = if self.turn == hand {
            String::from_str("It's *your*")
        } else {
            assert(self.hands@[self.turn as int]@ == self@.mover());
            let mover = mention_of(self.hands[self.turn].player.as_str());
            let mut setup = String::from_str("It's ");
            setup.append(mover.as_str());
            setup.append("'s");
            setup
        };
        setup.append(last);
        setup.append(" turn");
        let mut line = String::from_str(":hourglass: ");
        line.append(setup.as_str());
        line.append("; *");
        let clues = decimal(self.clues as u128);
        line.append(clues.as_str());
        line.append("* :information_source: and ");
        let lives = decimal(self.lives as u128);
        line.append(lives.as_str());
        line.append(" :bomb: remain.");
        assert(line@ == self@.turn_line(hand as int));
        cli.send(user, line.as_str());

        let in_deck = self.deck.len();
        if !self.deck.is_empty() && in_deck < 2 * self.hands.len() {
            let mut warning = String::from_str(":warning: *There are only ");
            let count = decimal(in_deck as u128);
            warning.append(count.as_str());
            warning.append(" cards left in the deck!*");
            cli.send(user, warning.as_str());
        }
        let ghost head = cli.sent();
        if self.turn != hand {
            assert(head =~= start + self@.state_report(hand as int));
            return ;
        }
        let mut stacks: Vec<String> = Vec::new();
        let mut c: usize = 0;
        while c < 5
            invariant
                c <= 5,
                self.wf(),
                stacks@.len() == c,
                forall|k: int|
                    0 <= k < c ==> (#[trigger] stacks@[k])@ == self@.stack_text(Color::at(k)),
            decreases 5 - c,
        {
            proof {
                self.unfold();
            }
            let mut stack = Color::from_index(c).to_string();
            stack.append(" ");
            match self.played[c] {
                Some(top) => {
                    let top = top.to_string();
                    stack.append(top.as_str());
                },
                None => {
                    stack.append(":zero:");
                },
            }
            stacks.push(stack);
            c = c + 1;
        }
        assert(texts(stacks@) =~= self@.stack_texts());
        let mut played = String::from_str("Played:\n");
        let joined = join(&stacks, "  |  ");
        played.append(joined.as_str());
        cli.send(user, played.as_str());
        cli.send(user, "Your hand, as far as you know, is:");
        let known = numbered_known_list(&owner.cards);
        let known = join(&known, "  |  ");
        cli.send(user, known.as_str());
        cli.send(user, "");
        let ghost middle = cli.sent();
        proof {
            holder_is_seated(self@.hands, user@, hand as int);
        }
        self.show_hands(user, true, cli);
        cli.send(
            user,
            "\nWhen you have the time, let me know here what move you want to make next!",
        );
        proof {
            let hands = self@.hands_report(user@, true);
            let four = seq![
                (user@, "Played:\n"@ + crate::text::join_text(self@.stack_texts(), bar())),
                (user@, "Your hand, as far as you know, is:"@),
                (
                    user@,
                    crate::text::join_text(
                        numbered_known_texts(self@.hands[hand as int].cards),
                        bar(),
                    ),
                ),
                (user@, Seq::<char>::empty()),
            ];
            let bye = seq![
                (
                    user@,
                    "\nWhen you have the time, let me know here what move you want to make next!"@,
                ),
            ];
            assert(middle =~= head + four);
            let first = if self@.deck_low() {
                seq![(user@, self@.turn_line(hand as int)), (user@, self@.low_line())]
            } else {
                seq![(user@, self@.turn_line(hand as int))]
            };
            assert(head =~= start + first);
            assert(self@.state_report(hand as int) == first + four + hands + bye);
            assert(cli.sent() =~= start + (first + four + hands + bye));
        }
    }

    /// Tells every player of the latest move and then either how the game
    /// ended, `elapsed` seconds after it began, or how it stands. Returns
    /// whether the game has ended.
    pub fn progress_game_after(&self, cli: &mut Outbox, elapsed: Option<u64>) -> (over: bool)
        requires
            self.wf(),
        ensures
            over == self@.over(),
            final(cli).sent() == old(cli).sent() + self@.progress_report(elapsed),
    {
        proof {
            self.unfold();
        }
        let ghost start = cli.sent();
        let players = self.hands.len();
        if self.last_move.show_to(0).unicode_len() > 0 {
            let mut i: usize = 0;
            assert(cli.sent() =~= start + self@.narrations_upto(0));
            while i < players
                invariant
                    i <= players,
                    players == self@.hands.len(),
                    self.wf(),
                    cli.sent() == start + self@.narrations_upto(i as nat),
                decreases players - i,
            {
                proof {
                    self.unfold();
                    reveal_strlit("<@");
                }
                let owner = &self.hands[i];
                assert(owner@ == self@.hands[i as int]);
                let name = mention_of(owner.player.as_str());
                assert(name@.len() > 0);
                let told = replace(self.last_move.show_to(i), name.as_str(), "you");
                let told = capitalise(told);
                let mut line = String::from_str(":point_right: ");
                line.append(told.as_str());
                cli.send(owner.player.as_str(), line.as_str());
                proof {
                    let sofar = self@.narrations_upto(i as nat);
                    assert((owner.player@, line@) == self@.narration(i as int));
                    assert((start + sofar).push(self@.narration(i as int)) =~= start + sofar.push(
                        self@.narration(i as int),
                    ));
                }
                i = i + 1;
            }
        }
        let ghost head = cli.sent();
        let ghost told = if self@.last_move.shown_to(0).len() > 0 {
            self@.narrations_upto(players as nat)
        } else {
            Seq::empty()
        };
        assert(head =~= start + told);
        let points = self.score();
        let lost = self.is_lost();
        if lost || points == 25 {
            let after = dur(elapsed);
            let mut i: usize = 0;
            assert(cli.sent() =~= head + self@.endings_upto(0, elapsed));
            while i < players
                invariant
                    i <= players,
                    players == self@.hands.len(),
                    self.wf(),
                    lost == self@.lost(),
                    points == self@.score(),
                    after@ == crate::text::dur_text(elapsed),
                    cli.sent() == head + self@.endings_upto(i as nat, elapsed),
                decreases players - i,
            {
                proof {
                    self.unfold();
                }
                let owner = &self.hands[i];
                assert(owner@ == self@.hands[i as int]);
                let line = if lost {
                    let mut line = String::from_str("Game over after ");
                    line.append(after.as_str());
                    line.append(".\nYou got ");
                    let got = decimal(points as u128);
                    line.append(got.as_str());
                    line.append("/25 points ");
                    line.append(self.score_smiley());
                    line.append("\nYour hand at the end was:\n");
                    let faces = face_list(&owner.cards);
                    let faces = join(&faces, "  |  ");
                    line.append(faces.as_str());
                    line
                } else {
                    let mut line = String::from_str("You won the game with 25/25 points after ");
                    line.append(after.as_str());
                    line.append(" ");
                    line.append(self.score_smiley());
                    line
                };
                cli.send(owner.player.as_str(), line.as_str());
                proof {
                    let sofar = self@.endings_upto(i as nat, elapsed);
                    let this = if self@.lost() {
                        self@.lost_line(i as int, elapsed)
                    } else {
                        self@.won_line(i as int, elapsed)
                    };
                    assert((owner.player@, line@) == this);
                    assert((head + sofar).push(this) =~= head + sofar.push(this));
                }
                i = i + 1;
            }
            proof {
                let ends = self@.endings_upto(players as nat, elapsed);
                assert((start + told) + ends =~= start + (told + ends));
            }
            return true;
        }
        let mut i: usize = 0;
        assert(cli.sent() =~= head + self@.states_upto(0));
        while i < players
            invariant
                i <= players,
                players == self@.hands.len(),
                self.wf(),
                cli.sent() == head + self@.states_upto(i as nat),
            decreases players - i,
        {
            let ghost sofar = self@.states_upto(i as nat);
            self.print_game_state(i, cli);
            proof {
                let this = self@.state_report(i as int);
                assert((head + sofar) + this =~= head + (sofar + this));
            }
            i = i + 1;
        }
        proof {
            let states = self@.states_upto(players as nat);
            assert((start + told) + states =~= start + (told + states));
        }
        false
    }

    /// Tells every player of the latest move and then either how the game
    /// ended or how it stands. The time since the game began is read off
    /// the system clock; but for that, this is `progress_game_after`.
    pub fn progress_game(&self, cli: &mut Outbox) -> (over: bool)
        requires
            self.wf(),
        ensures
            over == self@.over(),
            exists|elapsed: Option<u64>|
                final(cli).sent() == old(cli).sent() + #[trigger] self@.progress_report(elapsed),
    {
        let elapsed = clock::seconds_since(&self.started);
        self.progress_game_after(cli, elapsed)
    }
}

/// How many of the ten places of the deck's gauge stand for cards that are
/// left.
pub fn deck_gauge(left: usize, total: usize) -> (places: usize)
    requires
        0 < left <= total,
    ensures
        places == gauge(left as nat, total as nat),
        places <= 10,
{
    let left = left as u128;
    let total = total as u128;
    let places = (20 * left + total) / (2 * total);
    assert(places <= 10) by (nonlinear_arith)
        requires
            places == (20 * left + total) / (2 * total),
            0 < left <= total,
    ;
    places as usize
}

/// The text repeated `n` times.
pub fn repeat(text: &str, n: usize) -> (s: String)
    ensures
        s@ == repeated(text@, n as nat),
{
    let mut s = String::new();
    let mut i: usize = 0;
    while i < n
        invariant
            i <= n,
            s@ == repeated(text@, i as nat),
        decreases n - i,
    {
        s.append(text);
        i = i + 1;
    }
    s
}

} // verus!
