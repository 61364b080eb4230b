use hanabot::restore::{GameParts, SessionParts};
use hanabot::session::{find, Hanabi};
use hanabot::sink::Outbox;
use std::collections::HashMap;

fn session() -> Hanabi {
    Hanabi::new("bot".to_string(), "chan".to_string())
}

/// The messages of each player, as the players would get them.
fn by_user(out: &Outbox) -> HashMap<String, Vec<String>> {
    let mut msgs: HashMap<String, Vec<String>> = HashMap::new();
    for (user, text) in &out.msgs {
        msgs.entry(user.clone()).or_default().push(text.clone());
    }
    msgs
}

fn started(players: &[&str]) -> Hanabi {
    let mut hanabi = session();
    let mut out = Outbox::new();
    for p in players {
        assert!(hanabi.on_dm_recv("join", p, &mut out));
    }
    let n = format!("start {}", players.len());
    assert!(hanabi.on_dm_recv(&n, players[0], &mut out));
    hanabi
}

fn parts_of(hanabi: Hanabi) -> SessionParts {
    hanabi.into_parts()
}

#[test]
fn help() {
    let mut hanabi = session();
    let mut out = Outbox::new();
    assert!(!hanabi.on_dm_recv("help", "a", &mut out));
    let msgs = by_user(&out);
    assert!(msgs.contains_key("a"));
    assert_eq!(msgs.len(), 1);
    assert!(msgs["a"][0].starts_with("Welcome"));
    assert_eq!(msgs["a"].len(), 1);
}

#[test]
fn one_join() {
    let mut hanabi = session();
    let mut out = Outbox::new();
    assert!(hanabi.on_dm_recv("join", "a", &mut out));
    let msgs = by_user(&out);
    assert!(msgs.contains_key("a"));
    assert_eq!(msgs.len(), 1);
    assert!(msgs["a"][0].starts_with("Welcome"), "{}", msgs["a"][0]);
    assert_eq!(msgs["a"].len(), 1);
}

#[test]
fn two_join() {
    let mut hanabi = session();
    let mut out = Outbox::new();
    hanabi.on_dm_recv("join", "a", &mut out);
    out.msgs.clear();
    hanabi.on_dm_recv("join", "b", &mut out);
    let msgs = by_user(&out);
    assert!(msgs.contains_key("a"));
    assert!(msgs.contains_key("b"));
    assert_eq!(msgs.len(), 2);
    assert!(
        msgs["a"][0].starts_with("I have 1 other available player"),
        "{}",
        msgs["a"][0]
    );
    assert_eq!(msgs["a"].len(), 1);
    assert!(msgs["b"][0].starts_with("Welcome"), "{}", msgs["b"][0]);
    assert!(
        msgs["b"][1].starts_with("I have 1 other available player"),
        "{}",
        msgs["b"][1]
    );
    assert_eq!(msgs["b"].len(), 2);
}

#[test]
fn start_alone() {
    let mut hanabi = session();
    let mut out = Outbox::new();
    hanabi.on_dm_recv("join", "a", &mut out);
    out.msgs.clear();
    assert!(!hanabi.on_dm_recv("start", "a", &mut out));
    let msgs = by_user(&out);
    assert!(msgs.contains_key("a"), "{:?}", out.msgs);
    assert_eq!(msgs.len(), 1);
    assert_eq!(
        msgs["a"][0],
        "Unfortunately, there aren't enough players to start a game yet.",
    );
    assert_eq!(msgs["a"].len(), 1);
}

#[test]
fn start() {
    let mut hanabi = session();
    let mut out = Outbox::new();
    hanabi.on_dm_recv("join", "a", &mut out);
    hanabi.on_dm_recv("join", "b", &mut out);
    out.msgs.clear();
    assert!(hanabi.on_dm_recv("start", "a", &mut out));
    let msgs = by_user(&out);
    assert!(msgs.contains_key("a"));
    assert!(msgs.contains_key("b"));
    assert_eq!(msgs.len(), 2);
    assert_eq!(
        msgs["a"][0],
        "You are now in a game with 1 other players: <@b>"
    );
    assert_ne!(msgs["a"].len(), 1);
    assert_eq!(
        msgs["b"][0],
        "You are now in a game with 1 other players: <@a>"
    );
    assert_eq!(
        msgs["b"][1],
        ":hourglass: It's <@a>'s turn; *8* :information_source: and 3 :bomb: remain."
    );
    assert_eq!(msgs["b"].len(), 2);
}

#[test]
fn empty_line_does_nothing() {
    let mut hanabi = session();
    let mut out = Outbox::new();
    assert!(!hanabi.on_dm_recv("", "a", &mut out));
    assert!(!hanabi.on_dm_recv("  \t ", "a", &mut out));
    assert!(out.msgs.is_empty());
}

#[test]
fn stranger_is_sent_to_help() {
    let mut hanabi = session();
    let mut out = Outbox::new();
    assert!(!hanabi.on_dm_recv("play 1", "a", &mut out));
    assert!(!hanabi.on_dm_recv("start", "a", &mut out));
    assert_eq!(
        out.msgs,
        vec![
            (
                "a".to_string(),
                "I have no idea what you mean. Try `help` :)".to_string()
            ),
            (
                "a".to_string(),
                "I have no idea what you mean. Try `help` :)".to_string()
            ),
        ]
    );
}

#[test]
fn mention_of_the_program_is_not_needed() {
    let mut hanabi = session();
    let mut out = Outbox::new();
    assert!(!hanabi.on_dm_recv("<@bot> join", "a", &mut out));
    assert_eq!(
        out.msgs,
        vec![(
            "a".to_string(),
            "You don't need to prefix your commands with <@bot> when DMing me :)".to_string()
        )]
    );
    let parts = parts_of(hanabi);
    assert!(parts.waiting.is_empty());
}

#[test]
fn join_twice_is_told() {
    let mut hanabi = session();
    let mut out = Outbox::new();
    assert!(hanabi.on_dm_recv("JOIN", "a", &mut out));
    out.msgs.clear();
    assert!(!hanabi.on_dm_recv("join", "a", &mut out));
    assert_eq!(
        out.msgs,
        vec![(
            "a".to_string(),
            "You can start a game with `start` once there are enough players available."
                .to_string()
        )]
    );
    let mut hanabi = started(&["a", "b"]);
    let mut out = Outbox::new();
    assert!(!hanabi.on_dm_recv("join", "b", &mut out));
    assert_eq!(
        out.msgs,
        vec![(
            "b".to_string(),
            "You're already playing, but I appreciate your enthusiasm.".to_string()
        )]
    );
}

#[test]
fn waiting_player_cannot_move() {
    let mut hanabi = session();
    let mut out = Outbox::new();
    hanabi.on_dm_recv("join", "a", &mut out);
    out.msgs.clear();
    assert!(!hanabi.on_dm_recv("play 1", "a", &mut out));
    assert_eq!(
        out.msgs,
        vec![
            (
                "a".to_string(),
                "You're not in a game at the moment, so can't make a move.".to_string()
            ),
            (
                "a".to_string(),
                "You're not currently in any games, and thus can't make a move.".to_string()
            ),
        ]
    );
    out.msgs.clear();
    assert!(!hanabi.on_dm_recv("start soon", "a", &mut out));
    assert_eq!(
        out.msgs,
        vec![(
            "a".to_string(),
            "You can only give an integral number of players to start a game with".to_string()
        )]
    );
}

#[test]
fn start_takes_the_asked_number_from_the_front() {
    let mut hanabi = session();
    let mut out = Outbox::new();
    for p in ["a", "b", "c", "d", "e", "f", "g"] {
        hanabi.on_dm_recv("join", p, &mut out);
    }
    assert!(hanabi.on_dm_recv("start 3", "d", &mut out));
    let parts = parts_of(hanabi);
    assert_eq!(parts.waiting, vec!["c", "e", "f", "g"]);
    assert_eq!(parts.ngames, 1);
    assert_eq!(parts.games.len(), 1);
    assert_eq!(parts.games[0].0, 0);
    let seats: Vec<&str> = parts.games[0].1.hands.iter().map(|h| h.player.as_str()).collect();
    assert_eq!(seats, vec!["d", "a", "b"]);
    for hand in &parts.games[0].1.hands {
        assert_eq!(hand.cards.len(), 5);
    }
}

#[test]
fn start_never_takes_more_than_five() {
    let mut hanabi = session();
    let mut out = Outbox::new();
    for p in ["a", "b", "c", "d", "e", "f", "g"] {
        hanabi.on_dm_recv("join", p, &mut out);
    }
    assert!(hanabi.on_dm_recv("start 9", "a", &mut out));
    assert!(hanabi.on_dm_recv("start", "f", &mut out));
    let parts = parts_of(hanabi);
    assert!(parts.waiting.is_empty());
    assert_eq!(parts.ngames, 2);
    assert_eq!(parts.games[0].1.hands.len(), 5);
    assert_eq!(parts.games[1].1.hands.len(), 2);
    assert_eq!(parts.games[1].0, 1);
    assert_eq!(parts.games[1].1.hands[0].player, "f");
    assert_eq!(parts.games[0].1.hands[0].cards.len(), 4);
}

#[test]
fn start_of_too_few_sends_the_asker_to_the_back() {
    let mut hanabi = session();
    let mut out = Outbox::new();
    for p in ["a", "b", "c"] {
        hanabi.on_dm_recv("join", p, &mut out);
    }
    out.msgs.clear();
    assert!(!hanabi.on_dm_recv("start 1", "a", &mut out));
    assert_eq!(
        out.msgs,
        vec![(
            "a".to_string(),
            "Unfortunately, there aren't enough players to start a game yet.".to_string()
        )]
    );
    let parts = parts_of(hanabi);
    assert_eq!(parts.waiting, vec!["b", "c", "a"]);
    assert!(parts.games.is_empty());
    assert_eq!(parts.ngames, 0);
}

#[test]
fn discard_with_all_clues_is_refused_by_the_session() {
    let mut hanabi = started(&["a", "b"]);
    let mut out = Outbox::new();
    assert!(!hanabi.on_dm_recv("discard 1", "a", &mut out));
    assert_eq!(
        out.msgs,
        vec![(
            "a".to_string(),
            "All 8 clue tokens are available, so discard is disallowed.".to_string()
        )]
    );
    out.msgs.clear();
    assert!(!hanabi.on_dm_recv("discard 1", "b", &mut out));
    assert_eq!(
        out.msgs,
        vec![(
            "b".to_string(),
            "It's not your turn yet, it's <@a>'s.".to_string()
        )]
    );
}

#[test]
fn malformed_moves_are_explained() {
    let mut hanabi = started(&["a", "b"]);
    let cases = [
        ("play", "I think you played incorrectly there. To play, you just specify which card you'd like to play by specifying its index from the left side of your hand (starting at 1)."),
        ("play 0", "I think you played incorrectly there. To play, you just specify which card you'd like to play by specifying its index from the left side of your hand (starting at 1)."),
        ("play 1 2", "I think you played incorrectly there. To play, you just specify which card you'd like to play by specifying its index from the left side of your hand (starting at 1)."),
        ("play one", "I think you played incorrectly there. To play, you just specify which card you'd like to play by specifying its index from the left side of your hand (starting at 1)."),
        ("play 6", "The card you specified is not in your hand. Remember that card indexing starts at 1."),
        ("discard", "I'm going to discard that move. To discard, you must specify which card you'd like to play by specifying its index from the left side of your hand (starting at 1)."),
        ("discard -1", "I'm going to discard that move. To discard, you must specify which card you'd like to play by specifying its index from the left side of your hand (starting at 1)."),
        ("clue", "I don't have a clue what you mean. To clue, you give a player (using @playername), a card specifier (e.g., \"red\" or \"one\"), and nothing else."),
        ("clue <@b>", "I don't have a clue what you mean. To clue, you give a player (using @playername), a card specifier (e.g., \"red\" or \"one\"), and nothing else."),
        ("clue <@b> red now", "I don't have a clue what you mean. To clue, you give a player (using @playername), a card specifier (e.g., \"red\" or \"one\"), and nothing else."),
        ("<@b>", "I don't have a clue what you mean. To clue, you give a player (using @playername), a card specifier (e.g., \"red\" or \"one\"), and nothing else."),
        ("clue <@b> purple", "You're making no sense. A card can't be purple..."),
        ("clue <@b> RED", "You're making no sense. A card can't be RED..."),
        ("clue <@a> red", "The player you specified does not exist. Remember to use Slack's @username tagging."),
        ("clue <@z> red", "The player you specified does not exist. Remember to use Slack's @username tagging."),
        ("<@z> 1", "The player you specified does not exist. Remember to use Slack's @username tagging."),
        ("dance", "What do you mean \"dance\"?! You must either clue, play, or discard."),
        ("Dance now", "What do you mean \"dance\"?! You must either clue, play, or discard."),
        ("PING", "It's your turn... No need to bother the other players."),
    ];
    for (line, answer) in cases {
        let mut out = Outbox::new();
        assert!(!hanabi.on_dm_recv(line, "a", &mut out), "{}", line);
        assert_eq!(
            out.msgs,
            vec![("a".to_string(), answer.to_string())],
            "{}",
            line
        );
    }
    let mut out = Outbox::new();
    assert!(!hanabi.on_dm_recv("ping", "b", &mut out));
    assert_eq!(
        out.msgs,
        vec![
            (
                "a".to_string(),
                "<@b> pinged you -- it's your turn.".to_string()
            ),
            ("b".to_string(), "I've pinged <@a>.".to_string()),
        ]
    );
}

#[test]
fn looks_at_the_game_change_nothing() {
    let mut hanabi = started(&["a", "b"]);
    let mut out = Outbox::new();
    assert!(!hanabi.on_dm_recv("deck", "b", &mut out));
    assert!(!hanabi.on_dm_recv("discards", "b", &mut out));
    assert!(!hanabi.on_dm_recv("hands", "b", &mut out));
    assert_eq!(
        out.msgs[0],
        ("b".to_string(), "`[->        ]` 40 cards left".to_string())
    );
    assert_eq!(
        out.msgs[1],
        ("b".to_string(), "The discard pile is empty.".to_string())
    );
    assert_eq!(
        out.msgs[2],
        (
            "b".to_string(),
            "The other players' hands (in turn order) are:".to_string()
        )
    );
    assert_eq!(out.msgs.len(), 7);
    assert_eq!(out.msgs[3], ("b".to_string(), "<@b>".to_string()));
    assert_eq!(
        out.msgs[5],
        ("b".to_string(), "<@a> &lt;-- current turn".to_string())
    );
}

#[test]
fn a_move_passes_the_turn_and_is_told_to_all() {
    let mut hanabi = started(&["a", "b", "c"]);
    let mut out = Outbox::new();
    assert!(hanabi.on_dm_recv("play 2", "a", &mut out));
    let msgs = by_user(&out);
    assert!(msgs["a"][0].starts_with(":point_right: You "));
    assert!(msgs["b"][0].starts_with(":point_right: <@a> "));
    assert!(msgs["c"][0].starts_with(":point_right: <@a> "));
    assert!(msgs["b"][0].contains(", and then drew a "));
    assert!(!msgs["a"][0].contains("drew"));
    assert!(msgs["b"][1].starts_with(":hourglass: It's *your* turn; *8* :information_source: and "));
    assert!(msgs["c"][1].starts_with(":hourglass: It's <@b>'s turn; *8* :information_source: and "));
    let parts = parts_of(hanabi);
    assert_eq!(parts.games[0].1.turn, 1);
    assert_eq!(parts.games[0].1.deck.len(), 34);
    assert_eq!(parts.games[0].1.last_move.player(), 0);
}

#[test]
fn a_clue_can_be_given_by_name_alone() {
    let mut hanabi = started(&["a", "b"]);
    let parts = parts_of(hanabi);
    let first = &parts.games[0].1.hands[1].cards[0];
    let word = match first.number {
        hanabot::values::Number::One => "1",
        hanabot::values::Number::Two => "two",
        hanabot::values::Number::Three => "3",
        hanabot::values::Number::Four => "four",
        hanabot::values::Number::Five => "5",
    };
    let number = first.number;
    hanabi = Hanabi::from_parts(parts).unwrap();
    let mut out = Outbox::new();
    let line = format!("<@b> {}", word);
    assert!(hanabi.on_dm_recv(&line, "a", &mut out));
    let parts = parts_of(hanabi);
    let game = &parts.games[0].1;
    assert_eq!(game.clues, 7);
    assert_eq!(game.turn, 1);
    assert_eq!(
        game.hands[1].cards[0].clues,
        vec![(0, hanabot::values::Clue::Number(number))]
    );
}

#[test]
fn three_misplays_end_the_game_and_requeue_the_players() {
    let mut hanabi = started(&["a", "b"]);
    let mut out = Outbox::new();
    let mut turns = 0;
    loop {
        let parts = parts_of(hanabi);
        if parts.games.is_empty() {
            let mut waiting = parts.waiting.clone();
            waiting.sort();
            assert_eq!(waiting, vec!["a", "b"]);
            assert_eq!(parts.ngames, 1);
            break;
        }
        let game = &parts.games[0].1;
        let turn = game.turn;
        let player = game.hands[turn].player.clone();
        // a card that does not fit is always there among five cards at the
        // start of a game, unless every card in hand is a One of a new color
        let misfit = game.hands[turn].cards.iter().position(|c| {
            let top = game.played[c.color.index()].map(|n| n.as_usize()).unwrap_or(0);
            c.number.as_usize() != top + 1
        });
        hanabi = Hanabi::from_parts(parts).unwrap();
        out.msgs.clear();
        let line = match misfit {
            Some(at) => format!("play {}", at + 1),
            None => "play 1".to_string(),
        };
        assert!(hanabi.on_dm_recv(&line, &player, &mut out));
        turns += 1;
        assert!(turns < 30);
    }
    let msgs = by_user(&out);
    for p in ["a", "b"] {
        assert!(msgs[p].iter().any(|m| m.starts_with("Game over after ")));
        assert!(msgs[p]
            .iter()
            .any(|m| m.starts_with("Game with <@a>, and <@b> ended with a score of ")));
        assert!(msgs[p]
            .iter()
            .any(|m| m.starts_with("I have 1 other available players, so we can start a game.")));
    }
}

#[test]
fn quit_ends_the_game_for_all() {
    let mut hanabi = started(&["a", "b", "c"]);
    let mut out = Outbox::new();
    for p in ["x", "y"] {
        hanabi.on_dm_recv("join", p, &mut out);
    }
    out.msgs.clear();
    assert!(hanabi.on_dm_recv("quit", "b", &mut out));
    let msgs = by_user(&out);
    for p in ["a", "b", "c"] {
        assert_eq!(
            msgs[p][0],
            "The game was ended prematurely by <@b> with a score of 0/25"
        );
        assert_eq!(
            msgs[p][1],
            "Game with <@a>, <@b>, and <@c> ended with a score of 0/25 :face_with_rolling_eyes:"
        );
        assert!(msgs[p][2].starts_with("I have 4 other available players"));
        assert_eq!(msgs[p].len(), 3);
    }
    assert_eq!(msgs["x"].len(), 1);
    let parts = parts_of(hanabi);
    assert!(parts.games.is_empty());
    assert_eq!(&parts.waiting[..2], &["x".to_string(), "y".to_string()]);
    let mut back = parts.waiting[2..].to_vec();
    back.sort();
    assert_eq!(back, vec!["a", "b", "c"]);
}

#[test]
fn leave_takes_a_waiting_player_off_the_queue() {
    let mut hanabi = session();
    let mut out = Outbox::new();
    for p in ["a", "b", "c"] {
        hanabi.on_dm_recv("join", p, &mut out);
    }
    out.msgs.clear();
    assert!(hanabi.on_dm_recv("leave", "b", &mut out));
    assert_eq!(
        out.msgs,
        vec![(
            "b".to_string(),
            "I have stricken you from all my lists.".to_string()
        )]
    );
    out.msgs.clear();
    assert!(!hanabi.on_dm_recv("leave", "b", &mut out));
    assert!(!hanabi.on_dm_recv("leave", "z", &mut out));
    assert!(out.msgs.is_empty());
    let parts = parts_of(hanabi);
    assert_eq!(parts.waiting, vec!["a", "c"]);
}

#[test]
fn leave_in_a_game_ends_it_first() {
    let mut hanabi = started(&["a", "b"]);
    let mut out = Outbox::new();
    assert!(hanabi.on_dm_recv("leave", "a", &mut out));
    assert_eq!(
        out.msgs.last().unwrap(),
        &(
            "a".to_string(),
            "I have stricken you from all my lists.".to_string()
        )
    );
    let parts = parts_of(hanabi);
    assert!(parts.games.is_empty());
    assert_eq!(parts.waiting, vec!["b"]);
    assert_eq!(parts.ngames, 1);
}

#[test]
fn players_are_listed() {
    let mut hanabi = session();
    let mut out = Outbox::new();
    assert!(!hanabi.on_dm_recv("players", "z", &mut out));
    assert_eq!(
        out.msgs,
        vec![(
            "z".to_string(),
            "There are currently 0 games and 0 players:\nNo players waiting.".to_string()
        )]
    );
    let mut hanabi = started(&["a", "b"]);
    let mut out = Outbox::new();
    hanabi.on_dm_recv("join", "x", &mut out);
    hanabi.on_dm_recv("join", "y", &mut out);
    out.msgs.clear();
    assert!(!hanabi.on_dm_recv("Players", "x", &mut out));
    assert_eq!(
        out.msgs,
        vec![(
            "x".to_string(),
            "There are currently 1 games and 4 players:\n#0: <@a>, <@b>\nWaiting: <@x>, <@y>"
                .to_string()
        )]
    );
}

#[test]
fn help_depends_on_having_joined() {
    let mut hanabi = session();
    let mut out = Outbox::new();
    hanabi.on_dm_recv("join", "a", &mut out);
    out.msgs.clear();
    hanabi.on_dm_recv("help", "a", &mut out);
    hanabi.on_dm_recv("help", "b", &mut out);
    assert!(out.msgs[0]
        .1
        .starts_with("Oh, so you're confused? I'm so sorry to hear that.\n\nOn your turn, you can `play`, `discard`, or `clue`. "));
    assert!(out.msgs[0]
        .1
        .ends_with("\n\nIf you want more information, try <https://github.com/jonhoo/hanabot>."));
    assert_eq!(
        out.msgs[1].1,
        "Welcome to the game Hanabi!\n                 \nAll gameplay happens through your interactions with this bot. \nTo indicate your interest in joining a game, type `join`. \nOnce you've done so, you can type `help` again to get game-specific help. \n\nIf you want more information, try <https://en.wikipedia.org/wiki/Hanabi_(card_game)> or <https://github.com/jonhoo/hanabot>."
    );
}

#[test]
fn find_gives_the_first_place() {
    let list = vec!["a".to_string(), "b".to_string(), "a".to_string()];
    assert_eq!(find(&list, "a"), Some(0));
    assert_eq!(find(&list, "b"), Some(1));
    assert_eq!(find(&list, "c"), None);
}

#[test]
fn session_is_restored_from_its_parts() {
    let mut hanabi = started(&["a", "b", "c"]);
    let mut out = Outbox::new();
    hanabi.on_dm_recv("join", "x", &mut out);
    assert!(hanabi.on_dm_recv("play 1", "a", &mut out));
    let parts = parts_of(hanabi);
    assert_eq!(parts.me, "bot");
    assert_eq!(parts.channel, "chan");
    assert_eq!(parts.waiting, vec!["x"]);
    let turn = parts.games[0].1.turn;
    let lives = parts.games[0].1.lives;
    let first: Vec<_> = parts.games[0].1.hands[0]
        .cards
        .iter()
        .map(|c| (c.color, c.number, c.clues.clone()))
        .collect();
    let mut restored = Hanabi::from_parts(parts).unwrap();
    assert!(restored.check());
    let mut out = Outbox::new();
    assert!(!restored.on_dm_recv("players", "x", &mut out));
    assert_eq!(
        out.msgs[0].1,
        "There are currently 1 games and 4 players:\n#0: <@a>, <@b>, <@c>\nWaiting: <@x>"
    );
    let again = parts_of(restored);
    assert_eq!(again.games[0].1.turn, turn);
    assert_eq!(again.games[0].1.lives, lives);
    let same: Vec<_> = again.games[0].1.hands[0]
        .cards
        .iter()
        .map(|c| (c.color, c.number, c.clues.clone()))
        .collect();
    assert_eq!(same, first);
}

fn broken(change: fn(&mut SessionParts)) -> bool {
    let mut hanabi = started(&["a", "b"]);
    let mut out = Outbox::new();
    hanabi.on_dm_recv("join", "x", &mut out);
    hanabi.on_dm_recv("join", "y", &mut out);
    hanabi.on_dm_recv("join", "z", &mut out);
    hanabi.on_dm_recv("start 2", "x", &mut out);
    let mut parts = parts_of(hanabi);
    change(&mut parts);
    Hanabi::from_parts(parts).is_none()
}

fn game(parts: &mut SessionParts) -> &mut GameParts {
    &mut parts.games[0].1
}

#[test]
fn parts_that_make_no_session_are_refused() {
    assert!(!broken(|_| {}));
    assert!(broken(|p| p.waiting.push("z".to_string())));
    assert!(broken(|p| p.waiting.push("a".to_string())));
    assert!(broken(|p| p.ngames = 1));
    assert!(broken(|p| p.games[1].0 = 0));
    assert!(broken(|p| p.games[1].1.hands[0].player = "a".to_string()));
    assert!(broken(|p| game(p).hands[1].player = "a".to_string()));
    assert!(!broken(|p| game(p).clues = 8));
    assert!(broken(|p| game(p).clues = 9));
    assert!(!broken(|p| game(p).lives = 1));
    assert!(broken(|p| game(p).lives = 0));
    assert!(broken(|p| game(p).lives = 4));
    assert!(broken(|p| game(p).turn = 2));
    assert!(broken(|p| game(p).last_turns = Some(0)));
    assert!(broken(|p| {
        game(p).played.pop();
    }));
    assert!(broken(|p| game(p).discard.push(Vec::new())));
    assert!(broken(|p| {
        game(p).hands.pop();
    }));
    assert!(broken(|p| {
        let card = game(p).hands[0].cards.pop().unwrap();
        let wrong = (card.color.index() + 1) % 5;
        game(p).discard[wrong].push(card);
    }));
    assert!(!broken(|p| {
        let card = game(p).hands[0].cards.pop().unwrap();
        let right = card.color.index();
        game(p).discard[right].push(card);
    }));
    assert!(broken(|p| {
        let five = hanabot::cards::Card::new(
            hanabot::values::Color::Red,
            hanabot::values::Number::Five,
        );
        let one = hanabot::cards::Card::new(
            hanabot::values::Color::Red,
            hanabot::values::Number::One,
        );
        game(p).discard[0].push(five);
        game(p).discard[0].push(one);
    }));
    assert!(broken(|p| {
        let deck = std::mem::replace(
            &mut game(p).deck,
            hanabot::cards::Deck::from_cards(Vec::new()),
        );
        let cards = deck.into_cards();
        game(p).deck = hanabot::cards::Deck::restore(3, cards);
    }));
    assert!(broken(|p| {
        for n in [
            hanabot::values::Number::Five,
            hanabot::values::Number::Five,
            hanabot::values::Number::Five,
            hanabot::values::Number::Five,
            hanabot::values::Number::Five,
        ]
        .iter()
        .enumerate()
        {
            game(p).played[n.0] = Some(*n.1);
        }
    }));
}

#[test]
fn default_session_is_empty_and_takes_any_mention_for_its_own() {
    let mut hanabi = Hanabi::default();
    assert!(hanabi.validate());
    let mut out = Outbox::new();
    assert!(!hanabi.on_dm_recv("<@b> red", "a", &mut out));
    assert_eq!(
        out.msgs,
        vec![(
            "a".to_string(),
            "You don't need to prefix your commands with <@b> when DMing me :)".to_string()
        )]
    );
    let parts = hanabi.parts();
    assert_eq!(parts.me, "");
    assert_eq!(parts.channel, "");
    assert!(parts.waiting.is_empty());
    assert!(parts.games.is_empty());
    assert_eq!(parts.ngames, 0);
}
