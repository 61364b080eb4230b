use hanabot::actions::mention_of;
use hanabot::dispatch::{clue_named, mentions_player, same};
use hanabot::render::{deck_gauge, repeat};
use hanabot::text::{capitalise, decimal, dur, join, replace, stands_at};
use hanabot::values::{Clue, Color, Number};
use hanabot::words::{ends_with, name_in, parse_usize, words};

#[test]
fn decimal_writes_numbers() {
    assert_eq!(decimal(0), "0");
    assert_eq!(decimal(7), "7");
    assert_eq!(decimal(10), "10");
    assert_eq!(decimal(25), "25");
    assert_eq!(decimal(1234567890), "1234567890");
    assert_eq!(decimal(u64::MAX as u128), "18446744073709551615");
    assert_eq!(
        decimal(u128::MAX),
        "340282366920938463463374607431768211455"
    );
}

#[test]
fn dur_picks_the_largest_unit_that_is_exceeded() {
    assert_eq!(dur(None), "a while");
    assert_eq!(dur(Some(0)), "0 seconds");
    assert_eq!(dur(Some(1)), "1 seconds");
    assert_eq!(dur(Some(60)), "60 seconds");
    assert_eq!(dur(Some(61)), "1 minutes");
    assert_eq!(dur(Some(3600)), "60 minutes");
    assert_eq!(dur(Some(3601)), "1 hours");
    assert_eq!(dur(Some(86400)), "24 hours");
    assert_eq!(dur(Some(86401)), "1 days");
    assert_eq!(dur(Some(10 * 86400 + 5)), "10 days");
    assert_eq!(dur(Some(u64::MAX)), "213503982334601 days");
}

#[test]
fn join_puts_the_separator_between() {
    let none: Vec<String> = Vec::new();
    assert_eq!(join(&none, ", "), "");
    assert_eq!(join(&vec!["a".to_string()], ", "), "a");
    assert_eq!(
        join(
            &vec!["a".to_string(), "".to_string(), "c".to_string()],
            "  |  "
        ),
        "a  |    |  c"
    );
}

#[test]
fn replace_works_as_the_standard_one() {
    let cases = [
        ("<@a> clued <@b> that", "<@a>", "you"),
        ("<@a> clued <@a> and <@a>", "<@a>", "you"),
        ("aaaa", "aa", "b"),
        ("aaa", "aa", "b"),
        ("", "x", "y"),
        ("abc", "abcd", "y"),
        ("abcabc", "abc", ""),
        ("`[--        ]` 40 cards left", "- ", "> "),
        ("`[----------]` 50 cards left", "- ", "> "),
        ("h\u{e9}llo w\u{f6}rld \u{1f600} h\u{e9}", "h\u{e9}", "\u{1f600}\u{1f600}"),
    ];
    for (text, from, to) in cases {
        assert_eq!(replace(text, from, to), text.replace(from, to));
    }
    assert_eq!(replace("<@a> clued <@b> that", "<@a>", "you"), "you clued <@b> that");
    assert_eq!(replace("aaa", "aa", "b"), "ba");
}

#[test]
fn capitalise_touches_only_a_leading_you() {
    assert_eq!(capitalise("you played".to_string()), "You played");
    assert_eq!(capitalise("you".to_string()), "You");
    assert_eq!(capitalise("<@b> clued you".to_string()), "<@b> clued you");
    assert_eq!(capitalise("yo".to_string()), "yo");
    assert_eq!(capitalise("".to_string()), "");
    assert_eq!(capitalise("youyou".to_string()), "Youyou");
}

#[test]
fn stands_at_and_ends_with() {
    assert!(stands_at("<@bob>", 0, "<@"));
    assert!(stands_at("<@bob>", 2, "bob"));
    assert!(stands_at("<@bob>", 2, ""));
    assert!(stands_at("<@bob>", 6, ""));
    assert!(!stands_at("<@bob>", 3, "bob"));
    assert!(!stands_at("<@bob>", 5, ">>"));
    assert!(ends_with("<@bob>", ">"));
    assert!(ends_with("<@bob>", ""));
    assert!(!ends_with("<@bob", ">"));
    assert!(!ends_with(">", ">>"));
    assert!(mentions_player("<@bob>"));
    assert!(mentions_player("<@>"));
    assert!(!mentions_player("<@bob"));
    assert!(!mentions_player("bob>"));
    assert!(same("abc", "abc"));
    assert!(!same("abc", "abd"));
}

#[test]
fn words_are_split_at_whitespace() {
    let none: Vec<String> = Vec::new();
    assert_eq!(words(""), none);
    assert_eq!(words("   \t\n "), none);
    assert_eq!(words("join"), vec!["join"]);
    assert_eq!(words("  clue   <@b>\tred \n"), vec!["clue", "<@b>", "red"]);
    assert_eq!(words("a\u{a0}b\u{2003}c"), vec!["a", "b", "c"]);
    for text in ["play 1", " x  y ", "\u{e9}t\u{e9} \u{1f600}  z", "one"] {
        let want: Vec<String> = text.split_whitespace().map(|w| w.to_string()).collect();
        assert_eq!(words(text), want);
    }
}

#[test]
fn names_lose_the_marks_of_a_mention() {
    assert_eq!(name_in("<@bob>"), "bob");
    assert_eq!(name_in("bob"), "bob");
    assert_eq!(name_in("<@<@bob>>>"), "bob");
    assert_eq!(name_in("<@"), "");
    assert_eq!(name_in(">"), "");
    assert_eq!(name_in("b<@ob>x"), "b<@ob>x");
    for word in ["<@U123>", "<@<@x>", "x>>", "", "<@>", "<<@a>"] {
        let want = word.trim_start_matches("<@").trim_end_matches('>');
        assert_eq!(name_in(word), want);
    }
    assert_eq!(mention_of("bob"), "<@bob>");
}

#[test]
fn clues_are_named_by_word_or_digit() {
    assert_eq!(clue_named("red"), Some(Clue::Color(Color::Red)));
    assert_eq!(clue_named("green"), Some(Clue::Color(Color::Green)));
    assert_eq!(clue_named("white"), Some(Clue::Color(Color::White)));
    assert_eq!(clue_named("blue"), Some(Clue::Color(Color::Blue)));
    assert_eq!(clue_named("yellow"), Some(Clue::Color(Color::Yellow)));
    assert_eq!(clue_named("one"), Some(Clue::Number(Number::One)));
    assert_eq!(clue_named("1"), Some(Clue::Number(Number::One)));
    assert_eq!(clue_named("two"), Some(Clue::Number(Number::Two)));
    assert_eq!(clue_named("2"), Some(Clue::Number(Number::Two)));
    assert_eq!(clue_named("three"), Some(Clue::Number(Number::Three)));
    assert_eq!(clue_named("3"), Some(Clue::Number(Number::Three)));
    assert_eq!(clue_named("four"), Some(Clue::Number(Number::Four)));
    assert_eq!(clue_named("4"), Some(Clue::Number(Number::Four)));
    assert_eq!(clue_named("five"), Some(Clue::Number(Number::Five)));
    assert_eq!(clue_named("5"), Some(Clue::Number(Number::Five)));
    assert_eq!(clue_named("Red"), None);
    assert_eq!(clue_named("6"), None);
    assert_eq!(clue_named(""), None);
}

#[test]
fn gauge_rounds_to_the_nearest_place() {
    assert_eq!(deck_gauge(50, 50), 10);
    assert_eq!(deck_gauge(40, 50), 8);
    assert_eq!(deck_gauge(1, 50), 0);
    assert_eq!(deck_gauge(2, 50), 0);
    assert_eq!(deck_gauge(3, 50), 1);
    assert_eq!(deck_gauge(47, 50), 9);
    assert_eq!(deck_gauge(48, 50), 10);
    assert_eq!(deck_gauge(1, 2), 5);
    assert_eq!(deck_gauge(1, 20), 1);
    for total in 1..60usize {
        for left in 1..=total {
            let want = (10.0 * left as f64 / total as f64).round() as usize;
            assert_eq!(deck_gauge(left, total), want);
        }
    }
    assert_eq!(repeat("-", 3), "---");
    assert_eq!(repeat("ab", 0), "");
}

#[test]
fn numbers_are_read_like_the_standard_library_reads_them() {
    let cases = [
        "",
        "+",
        "0",
        "+0",
        "007",
        "1",
        "+12",
        "12a",
        "a12",
        " 12",
        "12 ",
        "-1",
        "-0",
        "++1",
        "1+",
        "1_000",
        "0x10",
        "1.0",
        "18446744073709551615",
        "+18446744073709551615",
        "18446744073709551616",
        "18446744073709551620",
        "99999999999999999999999",
        "000000000000000000000000000000001",
        "\u{663}",
        "1\u{663}",
        "\u{ff11}",
    ];
    for text in cases {
        assert_eq!(parse_usize(text), text.parse::<usize>().ok(), "{:?}", text);
    }
    assert_eq!(parse_usize("42"), Some(42));
    assert_eq!(parse_usize("+7"), Some(7));
    assert_eq!(parse_usize("seven"), None);
    assert_eq!(parse_usize("18446744073709551615"), Some(usize::MAX));
    for n in 0..2000usize {
        assert_eq!(parse_usize(&n.to_string()), Some(n));
    }
}
