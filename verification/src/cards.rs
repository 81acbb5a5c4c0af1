//! Cards, the 54-card deck, and the sprite-sheet lookup for drawing a card.
//!
//! The deck is the standard 52 cards plus the two jokers. Deck order is
//! suit-major: for each suit in club, diamond, heart, spade, the thirteen
//! ranks from two up to ace, then the little joker and the big joker.

use vstd::prelude::*;

verus! {

/// The suit of a card; `Joker` is reserved for the two jokers.
#[derive(Clone, Copy, Debug, Eq, Hash, PartialEq, PartialOrd, Ord, Structural)]
pub enum Suit {
    Club,
    Diamond,
    Heart,
    Spade,
    Joker,
}

/// The rank of a card, ordered from two (lowest) to the big joker (highest).
#[derive(Clone, Copy, Debug, Eq, Hash, PartialEq, PartialOrd, Ord, Structural)]
pub enum Rank {
    Two,
    Three,
    Four,
    Five,
    Six,
    Seven,
    Eight,
    Nine,
    Ten,
    Jack,
    Queen,
    King,
    Ace,
    LittleJoker,
    BigJoker,
}

/// One playing card. `hide` tells the table whether the face is turned down.
#[derive(Clone, Copy, Debug, Eq, Hash, PartialEq, Structural)]
pub struct Card {
    pub suit: Suit,
    pub rank: Rank,
    pub hide: bool,
}

impl Card {
    /// A face-up card of the given suit and rank.
    pub fn new(suit: Suit, rank: Rank) -> (c: Card)
        ensures
            c == (Card { suit, rank, hide: false }),
    {
        Card { suit, rank, hide: false }
    }

    /// Turns the card over.
    pub fn flip(&mut self)
        ensures
            *final(self) == (Card { hide: !old(self).hide, ..*old(self) }),
    {
        self.hide = !self.hide;
    }
}

/// The rank's place in the card order, two lowest, big joker highest.
pub open spec fn rank_order(r: Rank) -> int {
    match r {
        Rank::Two => 0,
        Rank::Three => 1,
        Rank::Four => 2,
        Rank::Five => 3,
        Rank::Six => 4,
        Rank::Seven => 5,
        Rank::Eight => 6,
        Rank::Nine => 7,
        Rank::Ten => 8,
        Rank::Jack => 9,
        Rank::Queen => 10,
        Rank::King => 11,
        Rank::Ace => 12,
        Rank::LittleJoker => 13,
        Rank::BigJoker => 14,
    }
}

/// The suit's place in the card order, used to break rank ties.
pub open spec fn suit_order(s: Suit) -> int {
    match s {
        Suit::Club => 0,
        Suit::Diamond => 1,
        Suit::Heart => 2,
        Suit::Spade => 3,
        Suit::Joker => 4,
    }
}

/// How two cards compare: by rank first, suit breaking ties.
pub open spec fn card_cmp(a: Card, b: Card) -> core::cmp::Ordering {
    if rank_order(a.rank) < rank_order(b.rank) {
        core::cmp::Ordering::Less
    } else if rank_order(a.rank) > rank_order(b.rank) {
        core::cmp::Ordering::Greater
    } else if suit_order(a.suit) < suit_order(b.suit) {
        core::cmp::Ordering::Less
    } else if suit_order(a.suit) > suit_order(b.suit) {
        core::cmp::Ordering::Greater
    } else {
        core::cmp::Ordering::Equal
    }
}

fn rank_value(r: Rank) -> (n: u8)
    ensures
        n as int == rank_order(r),
{
    match r {
        Rank::Two => 0,
        Rank::Three => 1,
        Rank::Four => 2,
        Rank::Five => 3,
        Rank::Six => 4,
        Rank::Seven => 5,
        Rank::Eight => 6,
        Rank::Nine => 7,
        Rank::Ten => 8,
        Rank::Jack => 9,
        Rank::Queen => 10,
        Rank::King => 11,
        Rank::Ace => 12,
        Rank::LittleJoker => 13,
        Rank::BigJoker => 14,
    }
}

fn suit_value(s: Suit) -> (n: u8)
    ensures
        n as int == suit_order(s),
{
    match s {
        Suit::Club => 0,
        Suit::Diamond => 1,
        Suit::Heart => 2,
        Suit::Spade => 3,
        Suit::Joker => 4,
    }
}

impl PartialOrd for Card {
    /// Cards compare by rank first, suit breaking ties; every pair of cards
    /// is comparable.
    fn partial_cmp(&self, other: &Self) -> (r: Option<core::cmp::Ordering>) {
        let ra = rank_value(self.rank);
        let rb = rank_value(other.rank);
        if ra < rb {
            Some(core::cmp::Ordering::Less)
        } else if ra > rb {
            Some(core::cmp::Ordering::Greater)
        } else {
            let sa = suit_value(self.suit);
            let sb = suit_value(other.suit);
            if sa < sb {
                Some(core::cmp::Ordering::Less)
            } else if sa > sb {
                Some(core::cmp::Ordering::Greater)
            } else {
                Some(core::cmp::Ordering::Equal)
            }
        }
    }
}

impl vstd::std_specs::cmp::PartialOrdSpecImpl for Card {
    open spec fn obeys_partial_cmp_spec() -> bool {
        true
    }

    open spec fn partial_cmp_spec(&self, other: &Self) -> Option<core::cmp::Ordering> {
        Some(card_cmp(*self, *other))
    }
}

/// The suit of deck column `i`, for the four non-joker suits.
pub open spec fn suit_at(i: int) -> Suit {
    if i == 0 {
        Suit::Club
    } else if i == 1 {
        Suit::Diamond
    } else if i == 2 {
        Suit::Heart
    } else {
        Suit::Spade
    }
}

/// The rank of deck row `j`, for the thirteen non-joker ranks.
pub open spec fn rank_at(j: int) -> Rank {
    if j == 0 {
        Rank::Two
    } else if j == 1 {
        Rank::Three
    } else if j == 2 {
        Rank::Four
    } else if j == 3 {
        Rank::Five
    } else if j == 4 {
        Rank::Six
    } else if j == 5 {
        Rank::Seven
    } else if j == 6 {
        Rank::Eight
    } else if j == 7 {
        Rank::Nine
    } else if j == 8 {
        Rank::Ten
    } else if j == 9 {
        Rank::Jack
    } else if j == 10 {
        Rank::Queen
    } else if j == 11 {
        Rank::King
    } else {
        Rank::Ace
    }
}

/// The card at position `k` of a fresh deck.
pub open spec fn deck_card(k: int) -> Card
    recommends
        0 <= k < 54,
{
    if k < 52 {
        Card { suit: suit_at(k / 13), rank: rank_at(k % 13), hide: false }
    } else if k == 52 {
        Card { suit: Suit::Joker, rank: Rank::LittleJoker, hide: false }
    } else {
        Card { suit: Suit::Joker, rank: Rank::BigJoker, hide: false }
    }
}

/// A fresh 54-card deck in suit-major order.
pub open spec fn full_deck() -> Seq<Card> {
    Seq::new(54, |k: int| deck_card(k))
}

fn suit_of(i: usize) -> (s: Suit)
    requires
        i < 4,
    ensures
        s == suit_at(i as int),
{
    if i == 0 {
        Suit::Club
    } else if i == 1 {
        Suit::Diamond
    } else if i == 2 {
        Suit::Heart
    } else {
        Suit::Spade
    }
}

fn rank_of(j: usize) -> (r: Rank)
    requires
        j < 13,
    ensures
        r == rank_at(j as int),
{
    if j == 0 {
        Rank::Two
    } else if j == 1 {
        Rank::Three
    } else if j == 2 {
        Rank::Four
    } else if j == 3 {
        Rank::Five
    } else if j == 4 {
        Rank::Six
    } else if j == 5 {
        Rank::Seven
    } else if j == 6 {
        Rank::Eight
    } else if j == 7 {
        Rank::Nine
    } else if j == 8 {
        Rank::Ten
    } else if j == 9 {
        Rank::Jack
    } else if j == 10 {
        Rank::Queen
    } else if j == 11 {
        Rank::King
    } else {
        Rank::Ace
    }
}

/// Builds a fresh 54-card deck: four suits of thirteen ranks, then the
/// little joker and the big joker, all face up.
pub fn new_deck() -> (deck: Vec<Card>)
    ensures
        deck@ == full_deck(),
{
    let mut deck: Vec<Card> = Vec::new();
    let mut s: usize = 0;
    while s < 4
        invariant
            s <= 4,
            deck@.len() == s * 13,
            forall|k: int| 0 <= k < deck@.len() ==> deck@[k] == deck_card(k),
        decreases 4 - s,
    {
        let mut t: usize = 0;
        while t < 13
            invariant
                s < 4,
                t <= 13,
                deck@.len() == s * 13 + t,
                forall|k: int| 0 <= k < deck@.len() ==> deck@[k] == deck_card(k),
            decreases 13 - t,
        {
            let c = Card::new(suit_of(s), rank_of(t));
            proof {
                let n = s * 13 + t;
                assert(n / 13 == s && n % 13 == t) by (nonlinear_arith)
                    requires
                        0 <= t < 13,
                        0 <= s < 4,
                        n == s * 13 + t,
                ;
            }
            deck.push(c);
            t = t + 1;
        }
        s = s + 1;
    }
    deck.push(Card::new(Suit::Joker, Rank::LittleJoker));
    deck.push(Card::new(Suit::Joker, Rank::BigJoker));
    proof {
        assert(deck@ =~= full_deck());
    }
    deck
}

/// Relies on rand's `SliceRandom::shuffle` with `rand::thread_rng`: an
/// in-place Fisher-Yates pass that only swaps elements of the slice, so the
/// result is a permutation of the input. Which permutation comes out depends
/// on the generator's state, so no more is claimed.
#[verifier::external_body]
pub fn shuffle_deck(deck: Vec<Card>) -> (r: Vec<Card>)
    ensures
        r@.len() == deck@.len(),
        r@.to_multiset() == deck@.to_multiset(),
{
    let mut deck = deck;
    let mut rng = rand::thread_rng();
    rand::seq::SliceRandom::shuffle(deck.as_mut_slice(), &mut rng);
    deck
}

/// The sprite-sheet cell that shows the given card.
pub open spec fn spec_sprite_index(card: Card) -> int {
    if card.hide {
        (match card.suit {
            Suit::Club => 390int,
            Suit::Diamond => 13int,
            Suit::Heart => 0int,
            Suit::Spade => 26int,
            Suit::Joker => 52int,
        }) + (match card.rank {
            Rank::Ace => 0int,
            Rank::Two => 1int,
            Rank::Three => 2int,
            Rank::Four => 3int,
            Rank::Five => 4int,
            Rank::Six => 5int,
            Rank::Seven => 6int,
            Rank::Eight => 7int,
            Rank::Nine => 8int,
            Rank::Ten => 9int,
            Rank::Jack => 10int,
            Rank::Queen => 11int,
            Rank::King => 12int,
            Rank::LittleJoker => 1int,
            Rank::BigJoker => 0int,
        })
    } else {
        54
    }
}

/// Looks up the sprite-sheet cell for a card: a suit base offset plus a rank
/// offset when the card is turned down, and the card-back cell otherwise.
pub fn get_sprite_index(card: &Card) -> (idx: usize)
    ensures
        idx as int == spec_sprite_index(*card),
{
    if card.hide {
        let suit_offset: usize = match card.suit {
            Suit::Club => 390,
            Suit::Diamond => 13,
            Suit::Heart => 0,
            Suit::Spade => 26,
            Suit::Joker => 52,
        };
        let rank_offset: usize = match card.rank {
            Rank::Ace => 0,
            Rank::Two => 1,
            Rank::Three => 2,
            Rank::Four => 3,
            Rank::Five => 4,
            Rank::Six => 5,
            Rank::Seven => 6,
            Rank::Eight => 7,
            Rank::Nine => 8,
            Rank::Ten => 9,
            Rank::Jack => 10,
            Rank::Queen => 11,
            Rank::King => 12,
            Rank::LittleJoker => 1,
            Rank::BigJoker => 0,
        };
        suit_offset + rank_offset
    } else {
        54
    }
}

/// A deck owned by the table, fresh and unshuffled at creation.
pub struct CardDeck {
    cards: Vec<Card>,
}

impl View for CardDeck {
    type V = Seq<Card>;

    closed spec fn view(&self) -> Seq<Card> {
        self.cards@
    }
}

impl CardDeck {
    /// A fresh deck in suit-major order.
    pub fn new() -> (deck: CardDeck)
        ensures
            deck@ == full_deck(),
    {
        CardDeck { cards: new_deck() }
    }

    /// The cards of the deck, first card first.
    pub fn cards(&self) -> (r: &Vec<Card>)
        ensures
            r@ == self@,
    {
        &self.cards
    }
}

} // verus!
