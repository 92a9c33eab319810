//! An ordered, shuffleable stack of cards, and the counting facts about it
//! that the turn engine relies on: the canonical 108-card composition and
//! how the number of plain colored cards evolves under draws and shuffles.

use vstd::prelude::*;
use vstd::multiset::Multiset;

use crate::card::{Card, Color, Value, is_plain};

verus! {

/// Number of copies of card `c` in a freshly built full deck: per color one
/// zero, two of each other number and of each colored action; four wilds and
/// four wild-fours, both carried by the neutral color.
pub open spec fn canonical_count(c: Card) -> int {
    if c.color == Color::Black {
        if c.value == Value::Wild || c.value == Value::WildFour {
            4
        } else {
            0
        }
    } else {
        match c.value {
            Value::Zero => 1,
            Value::Wild => 0,
            Value::WildFour => 0,
            _ => 2,
        }
    }
}

/// Number of occurrences of card `c` in `s`.
pub open spec fn card_count(s: Seq<Card>, c: Card) -> int
    decreases s.len(),
{
    if s.len() == 0 {
        0
    } else {
        card_count(s.drop_last(), c) + if s.last() == c {
            1int
        } else {
            0int
        }
    }
}

/// Number of plain colored number cards in `s`.
pub open spec fn plain_count(s: Seq<Card>) -> int
    decreases s.len(),
{
    if s.len() == 0 {
        0
    } else {
        plain_count(s.drop_last()) + if is_plain(s.last()) {
            1int
        } else {
            0int
        }
    }
}

/// The 25 cards a full deck holds in one play color.
pub open spec fn color_cards(col: Color) -> Seq<Card> {
    Seq::empty()
        .push(Card { color: col, value: Value::Zero })
        .push(Card { color: col, value: Value::One })
        .push(Card { color: col, value: Value::One })
        .push(Card { color: col, value: Value::Two })
        .push(Card { color: col, value: Value::Two })
        .push(Card { color: col, value: Value::Three })
        .push(Card { color: col, value: Value::Three })
        .push(Card { color: col, value: Value::Four })
        .push(Card { color: col, value: Value::Four })
        .push(Card { color: col, value: Value::Five })
        .push(Card { color: col, value: Value::Five })
        .push(Card { color: col, value: Value::Six })
        .push(Card { color: col, value: Value::Six })
        .push(Card { color: col, value: Value::Seven })
        .push(Card { color: col, value: Value::Seven })
        .push(Card { color: col, value: Value::Eight })
        .push(Card { color: col, value: Value::Eight })
        .push(Card { color: col, value: Value::Nine })
        .push(Card { color: col, value: Value::Nine })
        .push(Card { color: col, value: Value::Skip })
        .push(Card { color: col, value: Value::Skip })
        .push(Card { color: col, value: Value::Reverse })
        .push(Card { color: col, value: Value::Reverse })
        .push(Card { color: col, value: Value::DrawTwo })
        .push(Card { color: col, value: Value::DrawTwo })
}

/// The eight wild-family cards of a full deck.
pub open spec fn wild_cards() -> Seq<Card> {
    Seq::empty()
        .push(Card { color: Color::Black, value: Value::Wild })
        .push(Card { color: Color::Black, value: Value::Wild })
        .push(Card { color: Color::Black, value: Value::Wild })
        .push(Card { color: Color::Black, value: Value::Wild })
        .push(Card { color: Color::Black, value: Value::WildFour })
        .push(Card { color: Color::Black, value: Value::WildFour })
        .push(Card { color: Color::Black, value: Value::WildFour })
        .push(Card { color: Color::Black, value: Value::WildFour })
}

/// Order in which a full deck is laid out before its first shuffle.
pub open spec fn full_seq() -> Seq<Card> {
    color_cards(Color::Red) + color_cards(Color::Yellow) + color_cards(Color::Green) + color_cards(
        Color::Blue,
    ) + wild_cards()
}

/// Occurrence counts distribute over concatenation.
pub proof fn lemma_card_count_concat(a: Seq<Card>, b: Seq<Card>, c: Card)
    ensures
        card_count(a + b, c) == card_count(a, c) + card_count(b, c),
    decreases b.len(),
{
    if b.len() == 0 {
        assert(a + b =~= a);
    } else {
        lemma_card_count_concat(a, b.drop_last(), c);
        assert((a + b).drop_last() =~= a + b.drop_last());
        assert((a + b).last() == b.last());
    }
}

/// Plain-card counts distribute over concatenation.
pub proof fn lemma_plain_count_concat(a: Seq<Card>, b: Seq<Card>)
    ensures
        plain_count(a + b) == plain_count(a) + plain_count(b),
    decreases b.len(),
{
    if b.len() == 0 {
        assert(a + b =~= a);
    } else {
        lemma_plain_count_concat(a, b.drop_last());
        assert((a + b).drop_last() =~= a + b.drop_last());
        assert((a + b).last() == b.last());
    }
}

/// A sequence holds at least as many cards as plain cards.
pub proof fn lemma_plain_count_le_len(s: Seq<Card>)
    ensures
        0 <= plain_count(s) <= s.len(),
    decreases s.len(),
{
    if s.len() > 0 {
        lemma_plain_count_le_len(s.drop_last());
    }
}

/// Removing position `i` lowers the plain-card count exactly when the card
/// there is plain.
pub proof fn lemma_plain_count_remove(s: Seq<Card>, i: int)
    requires
        0 <= i < s.len(),
    ensures
        plain_count(s.remove(i)) == plain_count(s) - if is_plain(s[i]) {
            1int
        } else {
            0int
        },
    decreases s.len(),
{
    if i == s.len() - 1 {
        assert(s.remove(i) =~= s.drop_last());
    } else {
        lemma_plain_count_remove(s.drop_last(), i);
        assert(s.remove(i).drop_last() =~= s.drop_last().remove(i));
        assert(s.remove(i).last() == s.last());
    }
}

/// Reversing a sequence does not change any card's count.
pub proof fn lemma_card_count_reverse(s: Seq<Card>, c: Card)
    ensures
        card_count(s.reverse(), c) == card_count(s, c),
    decreases s.len(),
{
    if s.len() > 0 {
        assert(s.reverse().len() == s.len());
        assert(s.reverse().drop_last() =~= s.drop_first().reverse());
        assert(s.reverse().last() == s.first());
        lemma_card_count_reverse(s.drop_first(), c);
        lemma_card_count_remove(s, 0, c);
        assert(s.remove(0) =~= s.drop_first());
    }
}

/// Per-color composition of one color block.
pub proof fn lemma_color_block_count(col: Color, c: Card)
    requires
        col != Color::Black,
    ensures
        card_count(color_cards(col), c) == if c.color == col {
            match c.value {
                Value::Zero => 1int,
                Value::Wild => 0int,
                Value::WildFour => 0int,
                _ => 2int,
            }
        } else {
            0int
        },
{
    reveal_with_fuel(card_count, 27);
}

/// Every color block holds exactly 19 plain number cards.
pub proof fn lemma_color_block_plain(col: Color)
    requires
        col != Color::Black,
    ensures
        plain_count(color_cards(col)) == 19,
{
    reveal_with_fuel(plain_count, 27);
}

/// Composition of the wild block.
pub proof fn lemma_wild_block_count(c: Card)
    ensures
        card_count(wild_cards(), c) == if c == (Card { color: Color::Black, value: Value::Wild }) {
            4int
        } else if c == (Card { color: Color::Black, value: Value::WildFour }) {
            4int
        } else {
            0int
        },
        plain_count(wild_cards()) == 0,
{
    reveal_with_fuel(card_count, 10);
    reveal_with_fuel(plain_count, 10);
}

/// A full deck matches the canonical per-card counts and holds 76 plain
/// colored number cards.
pub proof fn lemma_full_seq_counts(c: Card)
    ensures
        card_count(full_seq(), c) == canonical_count(c),
        plain_count(full_seq()) == 76,
{
    let r = color_cards(Color::Red);
    let y = color_cards(Color::Yellow);
    let g = color_cards(Color::Green);
    let b = color_cards(Color::Blue);
    let w = wild_cards();
    lemma_card_count_concat(r + y + g + b, w, c);
    lemma_card_count_concat(r + y + g, b, c);
    lemma_card_count_concat(r + y, g, c);
    lemma_card_count_concat(r, y, c);
    lemma_color_block_count(Color::Red, c);
    lemma_color_block_count(Color::Yellow, c);
    lemma_color_block_count(Color::Green, c);
    lemma_color_block_count(Color::Blue, c);
    lemma_wild_block_count(c);
    lemma_plain_count_concat(r + y + g + b, w);
    lemma_plain_count_concat(r + y + g, b);
    lemma_plain_count_concat(r + y, g);
    lemma_plain_count_concat(r, y);
    lemma_color_block_plain(Color::Red);
    lemma_color_block_plain(Color::Yellow);
    lemma_color_block_plain(Color::Green);
    lemma_color_block_plain(Color::Blue);
}

/// An ordered stack of cards: draws and additions share one end, which is
/// also where `top` peeks.
#[derive(Clone, Debug)]
pub struct Deck {
    cards: Vec<Card>,
}

impl View for Deck {
    type V = Seq<Card>;

    closed spec fn view(&self) -> Seq<Card> {
        self.cards@
    }
}

/// Relies on rand::RngExt::random_range: sampling the range `0..n` yields a
/// value below `n`; `n >= 1` keeps the range non-empty, so the call cannot
/// panic.
#[verifier::external_body]
fn rand_below(n: usize) -> (r: usize)
    requires
        n >= 1,
    ensures
        r < n,
{
    rand::RngExt::random_range(&mut rand::rng(), 0..n)
}

impl Deck {
    /// The zero-card deck.
    pub fn empty() -> (d: Deck)
        ensures
            d@ =~= Seq::<Card>::empty(),
    {
        Deck { cards: Vec::new() }
    }

    /// A full deck: exactly 108 cards in the canonical composition.
    pub fn full() -> (d: Deck)
        ensures
            d@ == full_seq(),
            d@.len() == 108,
            forall|c: Card| card_count(d@, c) == canonical_count(c),
            plain_count(d@) == 76,
    {
        let mut cards: Vec<Card> = Vec::new();
        Self::push_color(&mut cards, Color::Red);
        Self::push_color(&mut cards, Color::Yellow);
        Self::push_color(&mut cards, Color::Green);
        Self::push_color(&mut cards, Color::Blue);
        cards.push(Card { color: Color::Black, value: Value::Wild });
        cards.push(Card { color: Color::Black, value: Value::Wild });
        cards.push(Card { color: Color::Black, value: Value::Wild });
        cards.push(Card { color: Color::Black, value: Value::Wild });
        cards.push(Card { color: Color::Black, value: Value::WildFour });
        cards.push(Card { color: Color::Black, value: Value::WildFour });
        cards.push(Card { color: Color::Black, value: Value::WildFour });
        cards.push(Card { color: Color::Black, value: Value::WildFour });
        proof {
            assert(cards@ =~= full_seq());
            assert(full_seq().len() == 108);
            assert forall|c: Card| card_count(cards@, c) == canonical_count(c) by {
                lemma_full_seq_counts(c);
            }
            lemma_full_seq_counts(Card { color: Color::Red, value: Value::Zero });
        }
        Deck { cards }
    }

    /// Appends the 25 cards of one color in the canonical order.
    fn push_color(cards: &mut Vec<Card>, col: Color)
        ensures
            final(cards)@ == old(cards)@ + color_cards(col),
    {
        cards.push(Card { color: col, value: Value::Zero });
        cards.push(Card { color: col, value: Value::One });
        cards.push(Card { color: col, value: Value::One });
        cards.push(Card { color: col, value: Value::Two });
        cards.push(Card { color: col, value: Value::Two });
        cards.push(Card { color: col, value: Value::Three });
        cards.push(Card { color: col, value: Value::Three });
        cards.push(Card { color: col, value: Value::Four });
        cards.push(Card { color: col, value: Value::Four });
        cards.push(Card { color: col, value: Value::Five });
        cards.push(Card { color: col, value: Value::Five });
        cards.push(Card { color: col, value: Value::Six });
        cards.push(Card { color: col, value: Value::Six });
        cards.push(Card { color: col, value: Value::Seven });
        cards.push(Card { color: col, value: Value::Seven });
        cards.push(Card { color: col, value: Value::Eight });
        cards.push(Card { color: col, value: Value::Eight });
        cards.push(Card { color: col, value: Value::Nine });
        cards.push(Card { color: col, value: Value::Nine });
        cards.push(Card { color: col, value: Value::Skip });
        cards.push(Card { color: col, value: Value::Skip });
        cards.push(Card { color: col, value: Value::Reverse });
        cards.push(Card { color: col, value: Value::Reverse });
        cards.push(Card { color: col, value: Value::DrawTwo });
        cards.push(Card { color: col, value: Value::DrawTwo });
        proof {
            assert(cards@ =~= old(cards)@ + color_cards(col));
        }
    }

    /// Number of cards currently held.
    pub fn size(&self) -> (n: usize)
        ensures
            n == self@.len(),
    {
        self.cards.len()
    }

    /// Whether no cards remain.
    pub fn is_empty(&self) -> (r: bool)
        ensures
            r == (self@.len() == 0),
    {
        self.cards.len() == 0
    }

    /// Removes and returns the topmost card; `None` signals an empty deck.
    pub fn draw(&mut self) -> (r: Option<Card>)
        ensures
            old(self)@.len() == 0 ==> r is None && final(self)@ == old(self)@,
            old(self)@.len() > 0 ==> r == Some(old(self)@.last()) && final(self)@ == old(
                self,
            )@.drop_last(),
    {
        self.cards.pop()
    }

    /// Pushes a card onto the top.
    pub fn add(&mut self, c: Card)
        ensures
            final(self)@ == old(self)@.push(c),
    {
        self.cards.push(c);
    }

    /// Peeks at the topmost card without removing it.
    pub fn top(&self) -> (r: Option<Card>)
        ensures
            self@.len() == 0 ==> r is None,
            self@.len() > 0 ==> r == Some(self@.last()),
    {
        if self.cards.len() == 0 {
            None
        } else {
            Some(self.cards[self.cards.len() - 1])
        }
    }

    /// Reorders the cards uniformly at random, in place: the new order holds
    /// exactly the old cards.
    pub fn shuffle(&mut self)
        ensures
            final(self)@.len() == old(self)@.len(),
            final(self)@.to_multiset() == old(self)@.to_multiset(),
            plain_count(final(self)@) == plain_count(old(self)@),
            forall|c: Card| card_count(final(self)@, c) == card_count(old(self)@, c),
    {
        broadcast use vstd::seq_lib::group_to_multiset_ensures;

        let ghost orig = self.cards@;
        let mut out: Vec<Card> = Vec::new();
        proof {
            assert(out@.to_multiset().add(self.cards@.to_multiset()) =~= orig.to_multiset());
        }
        while self.cards.len() > 0
            invariant
                out@.len() + self.cards@.len() == orig.len(),
                out@.to_multiset().add(self.cards@.to_multiset()) == orig.to_multiset(),
                plain_count(out@) + plain_count(self.cards@) == plain_count(orig),
                forall|c: Card|
                    card_count(out@, c) + card_count(self.cards@, c) == card_count(orig, c),
            decreases self.cards@.len(),
        {
            broadcast use vstd::seq_lib::group_to_multiset_ensures;

            let ghost a = out@;
            let ghost b = self.cards@;
            let k = rand_below(self.cards.len());
            let c = self.cards.remove(k);
            out.push(c);
            proof {
                assert(b.to_multiset().count(c) > 0);
                assert(out@.to_multiset().add(self.cards@.to_multiset()) =~= a.to_multiset().add(
                    b.to_multiset(),
                ));
                assert(out@ == a.push(c));
                assert(a.push(c).drop_last() =~= a);
                lemma_plain_count_remove(b, k as int);
                assert(plain_count(out@) == plain_count(a) + if is_plain(c) {
                    1int
                } else {
                    0int
                });
                assert forall|cc: Card|
                    card_count(out@, cc) + card_count(self.cards@, cc) == card_count(orig, cc) by {
                    lemma_card_count_remove(b, k as int, cc);
                    assert(card_count(out@, cc) == card_count(a, cc) + if c == cc {
                        1int
                    } else {
                        0int
                    });
                }
            }
        }
        proof {
            assert(self.cards@.to_multiset() =~= Multiset::<Card>::empty());
            assert(out@.to_multiset() =~= orig.to_multiset());
        }
        self.cards = out;
    }
}

/// Removing position `i` lowers the count of `c` exactly when the card
/// there is `c`.
pub proof fn lemma_card_count_remove(s: Seq<Card>, i: int, c: Card)
    requires
        0 <= i < s.len(),
    ensures
        card_count(s.remove(i), c) == card_count(s, c) - if s[i] == c {
            1int
        } else {
            0int
        },
    decreases s.len(),
{
    if i == s.len() - 1 {
        assert(s.remove(i) =~= s.drop_last());
    } else {
        lemma_card_count_remove(s.drop_last(), i, c);
        assert(s.remove(i).drop_last() =~= s.drop_last().remove(i));
        assert(s.remove(i).last() == s.last());
    }
}

} // verus!
