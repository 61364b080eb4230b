//! Taking a line of text apart: its words, their lowercase form, and the
//! numbers and names written in them.

use crate::text::{begins_with, stands_at, texts};
use vstd::prelude::*;

verus! {

/// Whether `char::is_whitespace` holds of the character.
pub uninterp spec fn whitespace(c: char) -> bool;

/// What `str::to_lowercase` makes of the text.
pub uninterp spec fn lowercased(text: Seq<char>) -> Seq<char>;

/// Whether the character is a decimal digit.
pub open spec fn is_digit(c: char) -> bool {
    '0' <= c <= '9'
}

/// The number that a row of decimal digits stands for.
pub open spec fn value_of(digits: Seq<char>) -> nat
    decreases digits.len(),
{
    if digits.len() == 0 {
        0
    } else {
        value_of(digits.drop_last()) * 10 + (digits.last() as nat - '0' as nat) as nat
    }
}

/// The digits of a number as it is written: the text, without a plus
/// sign at its start.
pub open spec fn digits_of(text: Seq<char>) -> Seq<char> {
    if text.len() > 0 && text[0] == '+' {
        text.skip(1)
    } else {
        text
    }
}

/// The number that a text stands for: one or more decimal digits, with or
/// without a plus sign before them, that stand for a number within the
/// range of `usize`. Any other text stands for none.
pub open spec fn parsed_usize(text: Seq<char>) -> Option<usize> {
    let digits = digits_of(text);
    if digits.len() > 0 && (forall|i: int| 0 <= i < digits.len() ==> is_digit(#[trigger] digits[i]))
        && value_of(digits) <= usize::MAX {
        Some(value_of(digits) as usize)
    } else {
        None
    }
}

/// More digits never stand for a smaller number.
pub proof fn value_grows(digits: Seq<char>, upto: int)
    requires
        0 <= upto <= digits.len(),
        forall|i: int| 0 <= i < digits.len() ==> is_digit(#[trigger] digits[i]),
    ensures
        value_of(digits.take(upto)) <= value_of(digits),
    decreases digits.len() - upto,
{
    if upto < digits.len() {
        value_grows(digits, upto + 1);
        let longer = digits.take(upto + 1);
        assert(longer.drop_last() =~= digits.take(upto));
        assert(is_digit(digits[upto]));
        assert(longer.last() == digits[upto]);
    } else {
        assert(digits.take(upto) =~= digits);
    }
}

/// Calls `char::is_whitespace`, which tells whether the character has the
/// Unicode property White_Space.
#[verifier::external_body]
fn is_space(c: char) -> (b: bool)
    ensures
        b == whitespace(c),
{
    c.is_whitespace()
}

/// Calls `str::to_lowercase`, which gives the lowercase equivalent of the
/// text as a new string.
#[verifier::external_body]
pub(crate) fn lowercase(text: &str) -> (s: String)
    ensures
        s@ == lowercased(text@),
{
    text.to_lowercase()
}

/// Reads the number that a text stands for.
pub fn parse_usize(text: &str) -> (n: Option<usize>)
    ensures
        n == parsed_usize(text@),
{
    let len = text.unicode_len();
    let from: usize = if len > 0 && text.get_char(0) == '+' {
        1
    } else {
        0
    };
    let ghost digits = digits_of(text@);
    assert(digits =~= text@.skip(from as int));
    if from == len {
        return None;
    }
    let mut value: usize = 0;
    let mut i: usize = from;
    assert(digits.take(0) =~= Seq::<char>::empty());
    while i < len
        invariant
            from <= i <= len,
            len == text@.len(),
            digits == digits_of(text@),
            digits == text@.skip(from as int),
            value == value_of(digits.take(i - from)),
            forall|k: int| 0 <= k < i - from ==> is_digit(#[trigger] digits[k]),
        decreases len - i,
    {
        let c = text.get_char(i);
        assert(c == digits[i - from]);
        if c < '0' || c > '9' {
            assert(!is_digit(digits[i - from]));
            return None;
        }
        let digit = (c as u32 - '0' as u32) as usize;
        let ghost longer = digits.take(i - from + 1);
        proof {
            assert(longer.drop_last() =~= digits.take(i - from));
            assert(longer.last() == c);
        }
        if value > (usize::MAX - digit) / 10 {
            proof {
                assert(value_of(longer) > usize::MAX) by (nonlinear_arith)
                    requires
                        value_of(longer) == value * 10 + digit,
                        value > (usize::MAX - digit) / 10,
                        digit <= 9,
                ;
                if forall|k: int| 0 <= k < digits.len() ==> is_digit(#[trigger] digits[k]) {
                    value_grows(digits, i - from + 1);
                }
            }
            return None;
        }
        assert(value * 10 + digit <= usize::MAX) by (nonlinear_arith)
            requires
                value <= (usize::MAX - digit) / 10,
                digit <= 9,
        ;
        value = value * 10 + digit;
        i = i + 1;
    }
    assert(digits.take(len - from) =~= digits);
    Some(value)
}

/// The words that are complete in a text, and the letters of the word
/// that its end is in the middle of.
pub open spec fn split(text: Seq<char>) -> (Seq<Seq<char>>, Seq<char>)
    decreases text.len(),
{
    if text.len() == 0 {
        (Seq::empty(), Seq::empty())
    } else {
        let (done, word) = split(text.drop_last());
        if !whitespace(text.last()) {
            (done, word.push(text.last()))
        } else if word.len() > 0 {
            (done.push(word), Seq::empty())
        } else {
            (done, Seq::empty())
        }
    }
}

/// The words of a text: its longest stretches without whitespace, in
/// order.
pub open spec fn words_of(text: Seq<char>) -> Seq<Seq<char>> {
    let (done, word) = split(text);
    if word.len() > 0 {
        done.push(word)
    } else {
        done
    }
}

/// Whether the text ends with the pattern.
pub open spec fn finishes_with(text: Seq<char>, pattern: Seq<char>) -> bool {
    pattern.len() <= text.len() && text.subrange(text.len() - pattern.len(), text.len() as int)
        == pattern
}

/// The text without the pattern at its start, as often as it stands
/// there. The pattern is not empty.
pub open spec fn without_leading(text: Seq<char>, pattern: Seq<char>) -> Seq<char>
    decreases text.len(),
{
    if pattern.len() > 0 && begins_with(text, pattern) {
        without_leading(text.skip(pattern.len() as int), pattern)
    } else {
        text
    }
}

/// The text without the pattern at its end, as often as it stands there.
/// The pattern is not empty.
pub open spec fn without_trailing(text: Seq<char>, pattern: Seq<char>) -> Seq<char>
    decreases text.len(),
{
    if pattern.len() > 0 && finishes_with(text, pattern) {
        without_trailing(text.take(text.len() - pattern.len()), pattern)
    } else {
        text
    }
}

/// A player's name as it is written by who names the player: without
/// what marks it as a mention.
pub open spec fn named(word: Seq<char>) -> Seq<char> {
    without_trailing(without_leading(word, "<@"@), ">"@)
}

/// Whether a word is a mention of a player.
pub open spec fn is_mention(word: Seq<char>) -> bool {
    begins_with(word, "<@"@) && finishes_with(word, ">"@)
}

/// Splits a text into its words.
pub fn words(text: &str) -> (list: Vec<String>)
    ensures
        texts(list@) == words_of(text@),
{
    let n = text.unicode_len();
    let mut list: Vec<String> = Vec::new();
    let mut word = String::new();
    let mut i: usize = 0;
    assert(text@.subrange(0, 0) =~= Seq::<char>::empty());
    assert(texts(list@) =~= Seq::<Seq<char>>::empty());
    while i < n
        invariant
            i <= n,
            n == text@.len(),
            (texts(list@), word@) == split(text@.subrange(0, i as int)),
        decreases n - i,
    {
        let ghost upto = text@.subrange(0, i + 1);
        assert(upto.drop_last() =~= text@.subrange(0, i as int));
        assert(upto.last() == text@[i as int]);
        let ghost done = texts(list@);
        let c = text.get_char(i);
        if !is_space(c) {
            let one = text.substring_char(i, i + 1);
            assert(one@ =~= seq![c]);
            let ghost before = word@;
            word.append(one);
            assert(word@ =~= before.push(c));
        } else if word.as_str().unicode_len() > 0 {
            let ghost whole = word@;
            list.push(word);
            word = String::new();
            assert(texts(list@) =~= done.push(whole));
        }
        i = i + 1;
    }
    assert(text@.subrange(0, n as int) =~= text@);
    if word.as_str().unicode_len() > 0 {
        let ghost done = texts(list@);
        let ghost whole = word@;
        list.push(word);
        assert(texts(list@) =~= done.push(whole));
    }
    list
}

/// Whether the text ends with the pattern.
pub fn ends_with(text: &str, pattern: &str) -> (b: bool)
    ensures
        b == finishes_with(text@, pattern@),
{
    let n = text.unicode_len();
    let m = pattern.unicode_len();
    if m > n {
        return false;
    }
    let b = stands_at(text, n - m, pattern);
    proof {
        let tail = text@.skip(n - m);
        assert(tail.subrange(0, m as int) =~= text@.subrange(n - m, n as int));
    }
    b
}

/// A player's name as it is written by who names the player.
pub fn name_in(word: &str) -> (s: String)
    ensures
        s@ == named(word@),
{
    proof {
        reveal_strlit("<@");
        reveal_strlit(">");
    }
    let n = word.unicode_len();
    let mut from: usize = 0;
    assert(word@.skip(0) =~= word@);
    while stands_at(word, from, "<@")
        invariant
            from <= n,
            n == word@.len(),
            "<@"@.len() == 2,
            without_leading(word@, "<@"@) == without_leading(word@.skip(from as int), "<@"@),
        decreases n - from,
    {
        assert(word@.skip(from as int).skip(2) =~= word@.skip(from + 2));
        from = from + 2;
    }
    let front = word.substring_char(from, n);
    assert(front@ =~= word@.skip(from as int));
    let m = n - from;
    let mut to: usize = m;
    assert(front@.take(m as int) =~= front@);
    while to > 0 && front.get_char(to - 1) == '>'
        invariant
            to <= m,
            m == front@.len(),
            ">"@.len() == 1,
            ">"@[0] == '>',
            without_trailing(front@, ">"@) == without_trailing(front@.take(to as int), ">"@),
        decreases to,
    {
        proof {
            let cur = front@.take(to as int);
            assert(cur.subrange(cur.len() - 1, cur.len() as int) =~= ">"@);
            assert(cur.take(cur.len() - 1) =~= front@.take(to - 1));
        }
        to = to - 1;
    }
    proof {
        let cur = front@.take(to as int);
        if to > 0 {
            assert(cur.subrange(cur.len() - 1, cur.len() as int)[0] == front@[to - 1]);
        }
        assert(!finishes_with(cur, ">"@));
    }
    let inner = front.substring_char(0, to);
    assert(inner@ =~= front@.take(to as int));
    String::from_str(inner)
}

} // verus!
