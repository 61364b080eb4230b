//! Cards and where they are kept: the deck and the players' hands.

use crate::values::{Clue, ClueError, Color, Number};
use crate::shuffle::{same_items_mapped, shuffle};
use vstd::prelude::*;

verus! {

/// A card: its face, and every clue that touched it while it sat in a hand.
pub struct Card {
    pub color: Color,
    pub number: Number,
    /// Each entry is the hand index of the player who gave the clue, and the clue.
    pub clues: Vec<(usize, Clue)>,
}

/// The mathematical value of a card.
pub struct CardView {
    pub color: Color,
    pub number: Number,
    pub clues: Seq<(usize, Clue)>,
}

impl View for Card {
    type V = CardView;

    open spec fn view(&self) -> CardView {
        CardView { color: self.color, number: self.number, clues: self.clues@ }
    }
}

/// The values of a sequence of cards, in the same order.
pub open spec fn views(cards: Seq<Card>) -> Seq<CardView> {
    cards.map_values(|c: Card| c@)
}

/// The separator between the two halves of a card's text.
pub open spec fn space() -> Seq<char> {
    " "@
}

impl CardView {
    /// A card that no clue has touched yet.
    pub open spec fn fresh(color: Color, number: Number) -> CardView {
        CardView { color, number, clues: Seq::empty() }
    }

    /// Whether the clue points at this card.
    pub open spec fn touched_by(self, clue: Clue) -> bool {
        clue.touches(self.color, self.number)
    }

    /// The card with one more entry in its clue log.
    pub open spec fn with_clue(self, giver: usize, clue: Clue) -> CardView {
        CardView { clues: self.clues.push((giver, clue)), ..self }
    }

    /// The holder knows the color once some clue in the log named it.
    pub open spec fn knows_color(self) -> bool {
        exists|i: int|
            0 <= i < self.clues.len() && (#[trigger] self.clues[i]).1 == Clue::Color(self.color)
    }

    /// The holder knows the number once some clue in the log named it.
    pub open spec fn knows_number(self) -> bool {
        exists|i: int|
            0 <= i < self.clues.len() && (#[trigger] self.clues[i]).1 == Clue::Number(
                self.number,
            )
    }

    /// The face of the card as text: color, a space, number.
    pub open spec fn text(self) -> Seq<char> {
        self.color.text() + space() + self.number.text()
    }

    /// What the holder knows of the card as text; an unknown half is shown
    /// as a placeholder.
    pub open spec fn known_text(self) -> Seq<char> {
        (if self.knows_color() {
            self.color.text()
        } else {
            ":rainbow:"@
        }) + space() + (if self.knows_number() {
            self.number.text()
        } else {
            ":keycap_star:"@
        })
    }
}

impl Card {
    /// A card that no clue has touched yet.
    pub fn new(color: Color, number: Number) -> (c: Card)
        ensures
            c@ == CardView::fresh(color, number),
    {
        Card { color, number, clues: Vec::new() }
    }

    /// The face of the card as text.
    pub fn to_string(&self) -> (s: String)
        ensures
            s@ == self@.text(),
    {
        let mut s = self.color.to_string();
        s.append(" ");
        let n = self.number.to_string();
        s.append(n.as_str());
        s
    }

    /// Whether some clue in the log named the card's color.
    pub fn knows_color(&self) -> (b: bool)
        ensures
            b == self@.knows_color(),
    {
        let mut i: usize = 0;
        while i < self.clues.len()
            invariant
                i <= self.clues.len(),
                forall|j: int| 0 <= j < i ==> (#[trigger] self.clues@[j]).1 != Clue::Color(self.color),
            decreases self.clues.len() - i,
        {
            let hit = match self.clues[i].1 {
                Clue::Color(c) => c == self.color,
                Clue::Number(_) => false,
            };
            if hit {
                return true;
            }
            i = i + 1;
        }
        false
    }

    /// Whether some clue in the log named the card's number.
    pub fn knows_number(&self) -> (b: bool)
        ensures
            b == self@.knows_number(),
    {
        let mut i: usize = 0;
        while i < self.clues.len()
            invariant
                i <= self.clues.len(),
                forall|j: int|
                    0 <= j < i ==> (#[trigger] self.clues@[j]).1 != Clue::Number(self.number),
            decreases self.clues.len() - i,
        {
            let hit = match self.clues[i].1 {
                Clue::Number(n) => n == self.number,
                Clue::Color(_) => false,
            };
            if hit {
                return true;
            }
            i = i + 1;
        }
        false
    }

    /// What the holder knows of the card, as text.
    pub fn known(&self) -> (s: String)
        ensures
            s@ == self@.known_text(),
    {
        let mut s = if self.knows_color() {
            self.color.to_string()
        } else {
            String::from_str(":rainbow:")
        };
        s.append(" ");
        if self.knows_number() {
            let n = self.number.to_string();
            s.append(n.as_str());
        } else {
            s.append(":keycap_star:");
        }
        s
    }
}

/// The rank of the card in slot `k` of a suit, for `k` from 0 to 9: three
/// Ones, two each of Two, Three and Four, one Five.
pub open spec fn slot_number(k: int) -> Number {
    if k < 3 {
        Number::One
    } else if k < 5 {
        Number::Two
    } else if k < 7 {
        Number::Three
    } else if k < 9 {
        Number::Four
    } else {
        Number::Five
    }
}

/// The full deck in canonical order: the suits in display order, each with
/// its ten cards in increasing rank.
pub open spec fn standard_deck() -> Seq<CardView> {
    Seq::new(50, |i: int| CardView::fresh(Color::at(i / 10), slot_number(i % 10)))
}

/// The rank of the card in slot `k` of a suit.
fn number_in_slot(k: usize) -> (n: Number)
    requires
        k < 10,
    ensures
        n == slot_number(k as int),
{
    if k < 3 {
        Number::One
    } else if k < 5 {
        Number::Two
    } else if k < 7 {
        Number::Three
    } else if k < 9 {
        Number::Four
    } else {
        Number::Five
    }
}

/// The fifty cards of a full deck, in canonical order.
pub fn standard_cards() -> (cards: Vec<Card>)
    ensures
        views(cards@) == standard_deck(),
{
    let mut cards: Vec<Card> = Vec::new();
    let mut i: usize = 0;
    while i < 50
        invariant
            i <= 50,
            cards@.len() == i,
            forall|j: int|
                0 <= j < i ==> (#[trigger] cards@[j])@ == CardView::fresh(
                    Color::at(j / 10),
                    slot_number(j % 10),
                ),
        decreases 50 - i,
    {
        let card = Card::new(Color::from_index(i / 10), number_in_slot(i % 10));
        cards.push(card);
        i = i + 1;
    }
    assert(views(cards@) =~= standard_deck());
    cards
}

/// A face-down stack of cards; the top is the last element.
pub struct Deck {
    total: usize,
    cards: Vec<Card>,
}

impl Deck {
    /// The cards left, bottom first.
    pub closed spec fn cards(&self) -> Seq<CardView> {
        views(self.cards@)
    }

    /// How many cards the deck held when it was made.
    pub closed spec fn total(&self) -> nat {
        self.total as nat
    }

    /// A deck of the given cards, bottom first.
    pub fn from_cards(cards: Vec<Card>) -> (d: Deck)
        ensures
            d.cards() == views(cards@),
            d.total() == cards@.len(),
    {
        Deck { total: cards.len(), cards }
    }

    /// A deck of the given cards, bottom first, that held `total` cards
    /// when it was made.
    pub fn restore(total: usize, cards: Vec<Card>) -> (d: Deck)
        ensures
            d.cards() == views(cards@),
            d.total() == total,
    {
        Deck { total, cards }
    }

    /// The cards that are left, bottom first.
    pub fn cards_left(&self) -> (cards: &Vec<Card>)
        ensures
            views(cards@) == self.cards(),
    {
        &self.cards
    }

    /// The cards that are left, bottom first.
    pub fn into_cards(self) -> (cards: Vec<Card>)
        ensures
            views(cards@) == self.cards(),
    {
        self.cards
    }

    /// Whether no card is left.
    pub fn is_empty(&self) -> (b: bool)
        ensures
            b == (self.cards().len() == 0),
    {
        self.cards.len() == 0
    }

    /// How many cards are left.
    pub fn len(&self) -> (n: usize)
        ensures
            n == self.cards().len(),
    {
        self.cards.len()
    }

    /// How many cards the deck held when it was made.
    pub fn of(&self) -> (n: usize)
        ensures
            n == self.total(),
    {
        self.total
    }

    /// Takes the top card off, if there is one.
    pub fn draw(&mut self) -> (card: Option<Card>)
        ensures
            final(self).total() == old(self).total(),
            old(self).cards().len() == 0 ==> card is None && final(self).cards() == old(
                self,
            ).cards(),
            old(self).cards().len() > 0 ==> card is Some && card->0@ == old(self).cards().last()
                && final(self).cards() == old(self).cards().drop_last(),
    {
        let card = self.cards.pop();
        proof {
            if old(self).cards@.len() > 0 {
                assert(views(self.cards@) =~= views(old(self).cards@).drop_last());
            }
        }
        card
    }
}

impl Default for Deck {
    /// A full deck in an order drawn at random.
    fn default() -> (d: Deck)
        ensures
            d.cards().to_multiset() == standard_deck().to_multiset(),
            d.cards().len() == 50,
            d.total() == 50,
    {
        let mut cards = standard_cards();
        let ghost ordered = cards@;
        assert(views(cards@).len() == cards@.len());
        assert(standard_deck().len() == 50);
        shuffle(&mut cards);
        proof {
            same_items_mapped(cards@, ordered, |c: Card| c@);
        }
        assert(views(cards@).len() == cards@.len());
        Deck { total: cards.len(), cards }
    }
}

/// The mathematical value of a hand.
pub struct HandView {
    pub player: Seq<char>,
    pub cards: Seq<CardView>,
}

/// The cards one player holds, left to right.
pub struct Hand {
    pub player: String,
    pub cards: Vec<Card>,
}

impl View for Hand {
    type V = HandView;

    open spec fn view(&self) -> HandView {
        HandView { player: self.player@, cards: views(self.cards@) }
    }
}

/// How many of the cards the clue points at.
pub open spec fn count_touched(cards: Seq<CardView>, clue: Clue) -> nat
    decreases cards.len(),
{
    if cards.len() == 0 {
        0
    } else {
        count_touched(cards.drop_last(), clue) + if cards.last().touched_by(clue) {
            1nat
        } else {
            0nat
        }
    }
}

/// The cards after a clue: each card the clue points at has the clue added
/// to its log, the others are as before.
pub open spec fn clued(cards: Seq<CardView>, giver: usize, clue: Clue) -> Seq<CardView> {
    Seq::new(
        cards.len(),
        |i: int|
            if cards[i].touched_by(clue) {
                cards[i].with_clue(giver, clue)
            } else {
                cards[i]
            },
    )
}

/// A count of touched cards never exceeds the number of cards.
pub proof fn count_touched_bound(cards: Seq<CardView>, clue: Clue)
    ensures
        count_touched(cards, clue) <= cards.len(),
    decreases cards.len(),
{
    if cards.len() > 0 {
        count_touched_bound(cards.drop_last(), clue);
    }
}

/// The count is zero exactly when the clue points at none of the cards.
pub proof fn count_touched_zero(cards: Seq<CardView>, clue: Clue)
    ensures
        count_touched(cards, clue) == 0 <==> forall|i: int|
            0 <= i < cards.len() ==> !(#[trigger] cards[i]).touched_by(clue),
    decreases cards.len(),
{
    if cards.len() > 0 {
        count_touched_zero(cards.drop_last(), clue);
        assert(forall|i: int|
            0 <= i < cards.len() - 1 ==> cards.drop_last()[i] == #[trigger] cards[i]);
        if count_touched(cards, clue) == 0 {
            assert forall|i: int| 0 <= i < cards.len() implies !(#[trigger] cards[i]).touched_by(
                clue,
            ) by {
                if i < cards.len() - 1 {
                    assert(cards.drop_last()[i] == cards[i]);
                }
            }
        } else {
            if cards.last().touched_by(clue) {
                assert(cards[cards.len() - 1].touched_by(clue));
            } else {
                let i = choose|i: int|
                    0 <= i < cards.drop_last().len() && (#[trigger] cards.drop_last()[i]).touched_by(
                        clue,
                    );
                assert(cards[i].touched_by(clue));
            }
        }
    }
}

impl HandView {
    /// The hand without the card at position `i`.
    pub open spec fn without(self, i: int) -> HandView {
        HandView { cards: self.cards.remove(i), ..self }
    }

    /// The hand with one more card at its right end.
    pub open spec fn with_card(self, card: CardView) -> HandView {
        HandView { cards: self.cards.push(card), ..self }
    }

    /// The hand after a clue.
    pub open spec fn clued(self, giver: usize, clue: Clue) -> HandView {
        HandView { cards: clued(self.cards, giver, clue), ..self }
    }
}

impl Hand {
    /// An empty hand for the given player.
    pub fn new(player: &str) -> (h: Hand)
        ensures
            h@ == (HandView { player: player@, cards: Seq::empty() }),
    {
        let h = Hand { player: String::from_str(player), cards: Vec::new() };
        assert(views(h.cards@) =~= Seq::empty());
        h
    }

    /// Moves the top card of the deck to the right end of the hand. Returns
    /// whether there was a card to move.
    pub fn draw(&mut self, deck: &mut Deck) -> (drew: bool)
        ensures
            drew == (old(deck).cards().len() > 0),
            final(deck).total() == old(deck).total(),
            drew ==> final(self)@ == old(self)@.with_card(old(deck).cards().last())
                && final(deck).cards() == old(deck).cards().drop_last(),
            !drew ==> final(self)@ == old(self)@ && final(deck).cards() == old(deck).cards(),
    {
        match deck.draw() {
            Some(card) => {
                self.cards.push(card);
                assert(views(self.cards@) =~= views(old(self).cards@).push(card@));
                true
            },
            None => false,
        }
    }

    /// How many cards of the hand the clue points at.
    pub fn count_matches(&self, clue: Clue) -> (n: usize)
        ensures
            n == count_touched(self@.cards, clue),
    {
        let mut n: usize = 0;
        let mut i: usize = 0;
        while i < self.cards.len()
            invariant
                i <= self.cards.len(),
                n <= i,
                n == count_touched(views(self.cards@).subrange(0, i as int), clue),
            decreases self.cards.len() - i,
        {
            let card = &self.cards[i];
            proof {
                let upto = views(self.cards@).subrange(0, i + 1);
                assert(upto.drop_last() =~= views(self.cards@).subrange(0, i as int));
                assert(upto.last() == card@);
            }
            if clue.matches(card.color, card.number) {
                n = n + 1;
            }
            i = i + 1;
        }
        assert(views(self.cards@).subrange(0, i as int) =~= views(self.cards@));
        n
    }

    /// Gives the hand a clue from the player at hand index `player`. The clue
    /// must point at a card; it is then written into the log of each card it
    /// points at, and their count is returned.
    pub fn clue(&mut self, player: usize, clue: Clue) -> (r: Result<usize, ClueError>)
        ensures
            count_touched(old(self)@.cards, clue) == 0 ==> r == Err::<usize, ClueError>(
                ClueError::NoMatchingCards,
            ) && final(self)@ == old(self)@,
            count_touched(old(self)@.cards, clue) > 0 ==> (r matches Ok(n) && n == count_touched(
                old(self)@.cards,
                clue,
            )) && final(self)@ == old(self)@.clued(player, clue),
    {
        let matches = self.count_matches(clue);
        if matches == 0 {
            return Err(ClueError::NoMatchingCards);
        }
        let mut i: usize = 0;
        while i < self.cards.len()
            invariant
                i <= self.cards.len(),
                self.player == old(self).player,
                self.cards@.len() == old(self).cards@.len(),
                forall|j: int|
                    0 <= j < i ==> (#[trigger] self.cards@[j])@ == clued(
                        views(old(self).cards@),
                        player,
                        clue,
                    )[j],
                forall|j: int|
                    i <= j < self.cards@.len() ==> (#[trigger] self.cards@[j]) == old(
                        self,
                    ).cards@[j],
            decreases self.cards.len() - i,
        {
            if clue.matches(self.cards[i].color, self.cards[i].number) {
                self.cards[i].clues.push((player, clue));
            }
            i = i + 1;
        }
        assert(views(self.cards@) =~= clued(views(old(self).cards@), player, clue));
        Ok(matches)
    }

    /// Takes the card at position `card` (counted from the left, from 0) out
    /// of the hand; the cards to its right move one place left.
    pub fn remove(&mut self, card: usize) -> (taken: Option<Card>)
        ensures
            card >= old(self)@.cards.len() ==> taken is None && final(self)@ == old(self)@,
            card < old(self)@.cards.len() ==> taken is Some && taken->0@ == old(self)@.cards[card as int]
                && final(self)@ == old(self)@.without(card as int),
    {
        if card >= self.cards.len() {
            return None;
        }
        let taken = self.cards.remove(card);
        assert(views(self.cards@) =~= views(old(self).cards@).remove(card as int));
        Some(taken)
    }
}

} // verus!
