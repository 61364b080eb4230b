//! The value types of the game: colors, ranks, clues and the action errors.

use vstd::prelude::*;

verus! {

/// An error that occurred while giving a clue.
#[derive(Clone, Copy, Debug, PartialEq, Eq, Structural)]
pub enum ClueError {
    NoSuchPlayer,
    NoMatchingCards,
    NotEnoughClues,
    GameOver,
}

/// An error that occurred while playing a card.
#[derive(Clone, Copy, Debug, PartialEq, Eq, Structural)]
pub enum PlayError {
    NoSuchCard,
    GameOver,
}

/// An error that occurred while discarding a card.
#[derive(Clone, Copy, Debug, PartialEq, Eq, Structural)]
pub enum DiscardError {
    NoSuchCard,
    MaxClues,
    GameOver,
}

/// The five suits.
#[derive(Clone, Copy, Debug, Hash, PartialEq, Eq, Structural)]
pub enum Color {
    Red,
    Green,
    White,
    Blue,
    Yellow,
}

/// The five ranks, in increasing order.
#[derive(Clone, Copy, Debug, PartialEq, Eq, Structural)]
pub enum Number {
    One,
    Two,
    Three,
    Four,
    Five,
}

/// A piece of information given to another player.
#[derive(Clone, Copy, Debug, PartialEq, Eq, Structural)]
pub enum Clue {
    Color(Color),
    Number(Number),
}

/// How many suits there are.
pub const COLORS: usize = 5;

impl Color {
    /// Position of the color in the canonical display order.
    pub open spec fn ord(self) -> int {
        match self {
            Color::Red => 0,
            Color::Green => 1,
            Color::White => 2,
            Color::Blue => 3,
            Color::Yellow => 4,
        }
    }

    /// The color at position `i` of the canonical display order.
    pub open spec fn at(i: int) -> Color {
        if i == 0 {
            Color::Red
        } else if i == 1 {
            Color::Green
        } else if i == 2 {
            Color::White
        } else if i == 3 {
            Color::Blue
        } else {
            Color::Yellow
        }
    }

    /// The text a color is shown as.
    pub open spec fn text(self) -> Seq<char> {
        match self {
            Color::Red => ":heart:"@,
            Color::Green => ":deciduous_tree:"@,
            Color::White => ":cloud:"@,
            Color::Blue => ":droplet:"@,
            Color::Yellow => ":sunny:"@,
        }
    }

    /// Position of the color in the canonical display order.
    pub fn index(&self) -> (i: usize)
        ensures
            i == self.ord(),
            i < COLORS,
    {
        match self {
            Color::Red => 0,
            Color::Green => 1,
            Color::White => 2,
            Color::Blue => 3,
            Color::Yellow => 4,
        }
    }

    /// The color at position `i` of the canonical display order.
    pub fn from_index(i: usize) -> (c: Color)
        requires
            i < COLORS,
        ensures
            c == Color::at(i as int),
            c.ord() == i,
    {
        if i == 0 {
            Color::Red
        } else if i == 1 {
            Color::Green
        } else if i == 2 {
            Color::White
        } else if i == 3 {
            Color::Blue
        } else {
            Color::Yellow
        }
    }

    /// The text a color is shown as.
    pub fn to_string(&self) -> (s: String)
        ensures
            s@ == self.text(),
    {
        match self {
            Color::Red => String::from_str(":heart:"),
            Color::Green => String::from_str(":deciduous_tree:"),
            Color::White => String::from_str(":cloud:"),
            Color::Blue => String::from_str(":droplet:"),
            Color::Yellow => String::from_str(":sunny:"),
        }
    }
}

impl Number {
    /// The rank as an integer between 1 and 5.
    pub open spec fn rank(self) -> int {
        match self {
            Number::One => 1,
            Number::Two => 2,
            Number::Three => 3,
            Number::Four => 4,
            Number::Five => 5,
        }
    }

    /// How many cards of this rank each suit holds.
    pub open spec fn copies(self) -> int {
        match self {
            Number::One => 3,
            Number::Five => 1,
            _ => 2,
        }
    }

    /// The text a number is shown as.
    pub open spec fn text(self) -> Seq<char> {
        match self {
            Number::One => ":one:"@,
            Number::Two => ":two:"@,
            Number::Three => ":three:"@,
            Number::Four => ":four:"@,
            Number::Five => ":five:"@,
        }
    }

    /// The rank as an integer between 1 and 5.
    pub fn as_usize(&self) -> (r: usize)
        ensures
            r == self.rank(),
            1 <= r <= 5,
    {
        match self {
            Number::One => 1,
            Number::Two => 2,
            Number::Three => 3,
            Number::Four => 4,
            Number::Five => 5,
        }
    }

    /// How many cards of this rank each suit holds.
    pub fn total(&self) -> (n: usize)
        ensures
            n == self.copies(),
    {
        match self {
            Number::One => 3,
            Number::Five => 1,
            _ => 2,
        }
    }

    /// Steps `rhs` ranks up; stepping past Five stays at Five.
    pub fn add(self, rhs: usize) -> (n: Number)
        ensures
            n.rank() == if self.rank() + rhs <= 5 { self.rank() + rhs } else { 5 },
    {
        let mut cur = self;
        let mut left: usize = rhs;
        while left > 0 && cur != Number::Five
            invariant
                left <= rhs,
                cur.rank() == if self.rank() + (rhs - left) <= 5 {
                    self.rank() + (rhs - left)
                } else {
                    5
                },
                cur != Number::Five ==> cur.rank() == self.rank() + (rhs - left),
            decreases left,
        {
            cur = match cur {
                Number::One => Number::Two,
                Number::Two => Number::Three,
                Number::Three => Number::Four,
                Number::Four => Number::Five,
                Number::Five => Number::Five,
            };
            left = left - 1;
        }
        cur
    }

    /// The text a number is shown as.
    pub fn to_string(&self) -> (s: String)
        ensures
            s@ == self.text(),
    {
        match self {
            Number::One => String::from_str(":one:"),
            Number::Two => String::from_str(":two:"),
            Number::Three => String::from_str(":three:"),
            Number::Four => String::from_str(":four:"),
            Number::Five => String::from_str(":five:"),
        }
    }
}

impl Clue {
    /// The text a clue is shown as: that of the color or number it names.
    pub open spec fn text(self) -> Seq<char> {
        match self {
            Clue::Color(c) => c.text(),
            Clue::Number(n) => n.text(),
        }
    }

    /// Whether a card of the given color and number is one the clue points at.
    pub open spec fn touches(self, color: Color, number: Number) -> bool {
        match self {
            Clue::Color(c) => c == color,
            Clue::Number(n) => n == number,
        }
    }

    /// Whether a card of the given color and number is one the clue points at.
    pub fn matches(&self, color: Color, number: Number) -> (b: bool)
        ensures
            b == self.touches(color, number),
    {
        match self {
            Clue::Color(c) => *c == color,
            Clue::Number(n) => *n == number,
        }
    }

    /// The text a clue is shown as.
    pub fn to_string(&self) -> (s: String)
        ensures
            s@ == self.text(),
    {
        match self {
            Clue::Color(c) => c.to_string(),
            Clue::Number(n) => n.to_string(),
        }
    }
}

} // verus!
