//! Building blocks for the text shown to players: decimal numbers, elapsed
//! times, joined lists and substitution.

use vstd::prelude::*;

verus! {

/// The text of one decimal digit.
pub open spec fn digit_text(d: nat) -> Seq<char> {
    if d == 0 {
        "0"@
    } else if d == 1 {
        "1"@
    } else if d == 2 {
        "2"@
    } else if d == 3 {
        "3"@
    } else if d == 4 {
        "4"@
    } else if d == 5 {
        "5"@
    } else if d == 6 {
        "6"@
    } else if d == 7 {
        "7"@
    } else if d == 8 {
        "8"@
    } else {
        "9"@
    }
}

/// A number written in decimal, without leading zeros.
pub open spec fn decimal_text(n: nat) -> Seq<char>
    decreases n,
{
    if n < 10 {
        digit_text(n)
    } else {
        decimal_text(n / 10) + digit_text(n % 10)
    }
}

/// An elapsed time in words: whole days above one day, whole hours above one
/// hour, whole minutes above one minute, seconds otherwise; "a while" where
/// the time is not known.
pub open spec fn dur_text(t: Option<u64>) -> Seq<char> {
    match t {
        None => "a while"@,
        Some(s) => if s > 86400 {
            decimal_text((s / 86400) as nat) + " days"@
        } else if s > 3600 {
            decimal_text((s / 3600) as nat) + " hours"@
        } else if s > 60 {
            decimal_text((s / 60) as nat) + " minutes"@
        } else {
            decimal_text(s as nat) + " seconds"@
        },
    }
}

/// The parts in order, with the separator between each two neighbours.
pub open spec fn join_text(parts: Seq<Seq<char>>, sep: Seq<char>) -> Seq<char>
    decreases parts.len(),
{
    if parts.len() == 0 {
        Seq::empty()
    } else if parts.len() == 1 {
        parts[0]
    } else {
        join_text(parts.drop_last(), sep) + sep + parts.last()
    }
}

/// The texts of a sequence of strings.
pub open spec fn texts(parts: Seq<String>) -> Seq<Seq<char>> {
    parts.map_values(|s: String| s@)
}

fn digit_str(d: u128) -> (s: &'static str)
    requires
        d < 10,
    ensures
        s@ == digit_text(d as nat),
{
    if d == 0 {
        "0"
    } else if d == 1 {
        "1"
    } else if d == 2 {
        "2"
    } else if d == 3 {
        "3"
    } else if d == 4 {
        "4"
    } else if d == 5 {
        "5"
    } else if d == 6 {
        "6"
    } else if d == 7 {
        "7"
    } else if d == 8 {
        "8"
    } else {
        "9"
    }
}

/// Writes a number in decimal.
pub fn decimal(n: u128) -> (s: String)
    ensures
        s@ == decimal_text(n as nat),
{
    let mut acc = String::from_str(digit_str(n % 10));
    let mut m: u128 = n / 10;
    while m > 0
        invariant
            m > 0 ==> decimal_text(n as nat) == decimal_text(m as nat) + acc@,
            m == 0 ==> decimal_text(n as nat) == acc@,
        decreases m,
    {
        let ghost before = acc@;
        acc = String::from_str(digit_str(m % 10)).concat(acc.as_str());
        proof {
            let d = digit_text((m % 10) as nat);
            if m >= 10 {
                assert((decimal_text((m / 10) as nat) + d) + before =~= decimal_text(
                    (m / 10) as nat,
                ) + (d + before));
            }
        }
        m = m / 10;
    }
    acc
}

/// Writes an elapsed time, given in whole seconds, in words.
pub fn dur(t: Option<u64>) -> (s: String)
    ensures
        s@ == dur_text(t),
{
    match t {
        None => String::from_str("a while"),
        Some(secs) => {
            if secs > 24 * 60 * 60 {
                decimal((secs / (24 * 60 * 60)) as u128).concat(" days")
            } else if secs > 60 * 60 {
                decimal((secs / (60 * 60)) as u128).concat(" hours")
            } else if secs > 60 {
                decimal((secs / 60) as u128).concat(" minutes")
            } else {
                decimal(secs as u128).concat(" seconds")
            }
        },
    }
}

/// Joins the parts with the separator between each two neighbours.
pub fn join(parts: &Vec<String>, sep: &str) -> (s: String)
    ensures
        s@ == join_text(texts(parts@), sep@),
{
    let mut out = String::new();
    let mut i: usize = 0;
    while i < parts.len()
        invariant
            i <= parts.len(),
            out@ == join_text(texts(parts@).subrange(0, i as int), sep@),
        decreases parts.len() - i,
    {
        proof {
            let upto = texts(parts@).subrange(0, i + 1);
            assert(upto.drop_last() =~= texts(parts@).subrange(0, i as int));
            assert(upto.last() == parts@[i as int]@);
            if i == 0 {
                assert(upto[0] == parts@[0]@);
                assert(Seq::<char>::empty() + parts@[0]@ =~= parts@[0]@);
            }
        }
        if i > 0 {
            out.append(sep);
        }
        out.append(parts[i].as_str());
        i = i + 1;
    }
    assert(texts(parts@).subrange(0, i as int) =~= texts(parts@));
    out
}

/// Whether the text begins with the pattern.
pub open spec fn begins_with(text: Seq<char>, pattern: Seq<char>) -> bool {
    pattern.len() <= text.len() && text.subrange(0, pattern.len() as int) == pattern
}

/// The text with every occurrence of a non-empty pattern replaced, found
/// from the left, each one starting where the one before ended.
pub open spec fn replaced(text: Seq<char>, from: Seq<char>, to: Seq<char>) -> Seq<char>
    decreases text.len(),
{
    if from.len() == 0 || text.len() == 0 {
        text
    } else if begins_with(text, from) {
        to + replaced(text.skip(from.len() as int), from, to)
    } else {
        text.take(1) + replaced(text.skip(1), from, to)
    }
}

/// The text with a leading "you" given a capital letter.
pub open spec fn capitalised(text: Seq<char>) -> Seq<char> {
    if begins_with(text, "you"@) {
        "You"@ + text.skip(3)
    } else {
        text
    }
}

/// Whether the pattern stands in the text at character `at`.
pub fn stands_at(text: &str, at: usize, pattern: &str) -> (b: bool)
    requires
        at <= text@.len(),
    ensures
        b == begins_with(text@.skip(at as int), pattern@),
{
    let n = text.unicode_len();
    let m = pattern.unicode_len();
    if m > n - at {
        return false;
    }
    let ghost rest = text@.skip(at as int);
    let mut j: usize = 0;
    while j < m
        invariant
            j <= m,
            m == pattern@.len(),
            n == text@.len(),
            at + m <= n,
            rest == text@.skip(at as int),
            forall|k: int| 0 <= k < j ==> rest[k] == pattern@[k],
        decreases m - j,
    {
        if text.get_char(at + j) != pattern.get_char(j) {
            assert(rest.subrange(0, m as int)[j as int] != pattern@[j as int]);
            return false;
        }
        j = j + 1;
    }
    assert(rest.subrange(0, m as int) =~= pattern@);
    true
}

/// Replaces every occurrence of a non-empty pattern, found from the left,
/// each one starting where the one before ended.
pub fn replace(text: &str, from: &str, to: &str) -> (s: String)
    requires
        from@.len() > 0,
    ensures
        s@ == replaced(text@, from@, to@),
{
    let n = text.unicode_len();
    let m = from.unicode_len();
    let mut out = String::new();
    let mut i: usize = 0;
    assert(text@.skip(0) =~= text@);
    assert(Seq::<char>::empty() + replaced(text@, from@, to@) =~= replaced(text@, from@, to@));
    while i < n
        invariant
            i <= n,
            n == text@.len(),
            m == from@.len(),
            m > 0,
            out@ + replaced(text@.skip(i as int), from@, to@) == replaced(text@, from@, to@),
        decreases n - i,
    {
        let ghost rest = text@.skip(i as int);
        let ghost done = out@;
        if stands_at(text, i, from) {
            out.append(to);
            proof {
                assert(rest.skip(m as int) =~= text@.skip(i + m));
                let tail = replaced(text@.skip(i + m), from@, to@);
                assert((done + to@) + tail =~= done + (to@ + tail));
            }
            i = i + m;
        } else {
            let one = text.substring_char(i, i + 1);
            out.append(one);
            proof {
                assert(rest.skip(1) =~= text@.skip(i + 1));
                assert(rest.take(1) =~= text@.subrange(i as int, i + 1));
                let tail = replaced(text@.skip(i + 1), from@, to@);
                assert((done + one@) + tail =~= done + (one@ + tail));
            }
            i = i + 1;
        }
    }
    assert(out@ + Seq::<char>::empty() =~= out@);
    out
}

/// Gives a leading "you" a capital letter.
pub fn capitalise(text: String) -> (s: String)
    ensures
        s@ == capitalised(text@),
{
    if stands_at(text.as_str(), 0, "you") {
        proof {
            reveal_strlit("you");
            assert(text@.skip(0) =~= text@);
            assert(text@.skip(3) =~= text@.subrange(3, text@.len() as int));
        }
        let n = text.as_str().unicode_len();
        let rest = text.as_str().substring_char(3, n);
        String::from_str("You").concat(rest)
    } else {
        assert(text@.skip(0) =~= text@);
        text
    }
}

} // verus!
