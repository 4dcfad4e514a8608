//! Playing cards and their one-byte encoding.

use vstd::prelude::*;
use vstd::std_specs::convert::FromSpecImpl;

verus! {

/// The id that stands for an invalid or absent card.
pub const INVALID_ID: u8 = 52;

/// A playing card value
#[derive(Copy, Clone, Debug, PartialEq, Eq, Structural)]
pub enum Value {
    Invalid,
    Ace,
    Two,
    Three,
    Four,
    Five,
    Six,
    Seven,
    Eight,
    Nine,
    Ten,
    Jack,
    Queen,
    King,
}

/// A playing card suit
#[derive(Copy, Clone, Debug, PartialEq, Eq, Structural)]
pub enum Suit {
    Clubs,
    Diamonds,
    Hearts,
    Spades,
}

impl Value {
    /// The rank of a value: 0 for `Invalid`, 1 for `Ace`, up to 13 for `King`.
    pub open spec fn rank_spec(self) -> u8 {
        match self {
            Value::Invalid => 0,
            Value::Ace => 1,
            Value::Two => 2,
            Value::Three => 3,
            Value::Four => 4,
            Value::Five => 5,
            Value::Six => 6,
            Value::Seven => 7,
            Value::Eight => 8,
            Value::Nine => 9,
            Value::Ten => 10,
            Value::Jack => 11,
            Value::Queen => 12,
            Value::King => 13,
        }
    }

    /// The value with the given rank; `Invalid` for a rank above 13.
    pub open spec fn of_rank(rank: u8) -> Value {
        match rank {
            1 => Value::Ace,
            2 => Value::Two,
            3 => Value::Three,
            4 => Value::Four,
            5 => Value::Five,
            6 => Value::Six,
            7 => Value::Seven,
            8 => Value::Eight,
            9 => Value::Nine,
            10 => Value::Ten,
            11 => Value::Jack,
            12 => Value::Queen,
            13 => Value::King,
            _ => Value::Invalid,
        }
    }

    /// Get the rank of a value
    #[verifier::when_used_as_spec(rank_spec)]
    pub fn rank(self) -> (r: u8)
        ensures
            r == self.rank_spec(),
            r <= 13,
    {
        match self {
            Value::Invalid => 0,
            Value::Ace => 1,
            Value::Two => 2,
            Value::Three => 3,
            Value::Four => 4,
            Value::Five => 5,
            Value::Six => 6,
            Value::Seven => 7,
            Value::Eight => 8,
            Value::Nine => 9,
            Value::Ten => 10,
            Value::Jack => 11,
            Value::Queen => 12,
            Value::King => 13,
        }
    }

    /// Get the value with the given rank
    pub fn from_rank(rank: u8) -> (v: Value)
        ensures
            v == Value::of_rank(rank),
    {
        match rank {
            1 => Value::Ace,
            2 => Value::Two,
            3 => Value::Three,
            4 => Value::Four,
            5 => Value::Five,
            6 => Value::Six,
            7 => Value::Seven,
            8 => Value::Eight,
            9 => Value::Nine,
            10 => Value::Ten,
            11 => Value::Jack,
            12 => Value::Queen,
            13 => Value::King,
            _ => Value::Invalid,
        }
    }
}

impl Suit {
    /// The index of a suit: 0 for `Clubs` up to 3 for `Spades`.
    pub open spec fn index_spec(self) -> u8 {
        match self {
            Suit::Clubs => 0,
            Suit::Diamonds => 1,
            Suit::Hearts => 2,
            Suit::Spades => 3,
        }
    }

    /// Get the index of a suit
    #[verifier::when_used_as_spec(index_spec)]
    pub fn index(self) -> (r: u8)
        ensures
            r == self.index_spec(),
            r <= 3,
    {
        match self {
            Suit::Clubs => 0,
            Suit::Diamonds => 1,
            Suit::Hearts => 2,
            Suit::Spades => 3,
        }
    }
}

/// A playing card
#[derive(Copy, Clone, Debug, PartialEq, Eq, Structural)]
pub struct Card {
    pub value: u8,
    pub suit: u8,
}

impl Card {
    /// A card that can be dealt: a rank from ace to king in one of the four suits.
    pub open spec fn is_valid(self) -> bool {
        1 <= self.value <= 13 && self.suit <= 3
    }

    /// The card that an id decodes to: `id % 13 + 1` of suit `id / 13` below 52,
    /// the invalid card from 52 on.
    pub open spec fn of_id(id: u8) -> Card {
        if id >= INVALID_ID {
            Card { value: 0, suit: 0 }
        } else {
            Card { value: (id % 13 + 1) as u8, suit: id / 13 }
        }
    }

    /// The id that a card encodes to: 52 for a card without a value, else
    /// `13 * suit + value - 1`, reduced to a byte.
    pub open spec fn id(self) -> u8 {
        if self.value == 0 {
            INVALID_ID
        } else {
            ((13 * self.suit + self.value - 1) % 256) as u8
        }
    }

    /// Get a card from two ints
    pub fn new(value: u8, suit: u8) -> (c: Card)
        ensures
            c == (Card { value, suit }),
    {
        Card { value, suit }
    }

    /// Get a card from a value and a suit
    pub fn create(value: Value, suit: Suit) -> (c: Card)
        ensures
            c == (Card { value: value.rank_spec(), suit: suit.index_spec() }),
    {
        Card::new(value.rank(), suit.index())
    }

    /// Get an invalid card
    pub fn invalid() -> (c: Card)
        ensures
            c == (Card { value: 0, suit: 0 }),
            !c.is_valid(),
    {
        Card::create(Value::Invalid, Suit::Clubs)
    }
}

/// The label of a rank: `?` for none, `A`, `2` to `10`, `J`, `Q`, `K`.
pub open spec fn rank_label(value: u8) -> Seq<char> {
    match value {
        0 => "?"@,
        1 => "A"@,
        2 => "2"@,
        3 => "3"@,
        4 => "4"@,
        5 => "5"@,
        6 => "6"@,
        7 => "7"@,
        8 => "8"@,
        9 => "9"@,
        10 => "10"@,
        11 => "J"@,
        12 => "Q"@,
        _ => "K"@,
    }
}

/// The symbol of a suit.
pub open spec fn suit_label(suit: u8) -> Seq<char> {
    match suit {
        0 => "♣"@,
        1 => "♦"@,
        2 => "♥"@,
        _ => "♠"@,
    }
}

fn rank_str(value: u8) -> (s: &'static str)
    ensures
        s@ == rank_label(value),
{
    match value {
        0 => "?",
        1 => "A",
        2 => "2",
        3 => "3",
        4 => "4",
        5 => "5",
        6 => "6",
        7 => "7",
        8 => "8",
        9 => "9",
        10 => "10",
        11 => "J",
        12 => "Q",
        _ => "K",
    }
}

fn suit_str(suit: u8) -> (s: &'static str)
    ensures
        s@ == suit_label(suit),
{
    match suit {
        0 => "♣",
        1 => "♦",
        2 => "♥",
        _ => "♠",
    }
}

impl Card {
    /// The text of a card: the label of its rank, then the symbol of its suit.
    pub open spec fn label(self) -> Seq<char> {
        rank_label(self.value) + suit_label(self.suit)
    }

    /// Show a card as its rank and suit
    pub fn to_string(&self) -> (s: String)
        requires
            self.value <= 13,
            self.suit <= 3,
        ensures
            s@ == self.label(),
    {
        String::from_str(rank_str(self.value)).concat(suit_str(self.suit))
    }
}

impl From<u8> for Card {
    fn from(id: u8) -> (c: Card) {
        if id >= INVALID_ID {
            Card::invalid()
        } else {
            Card::new((id % 13) + 1, id / 13)
        }
    }
}

impl FromSpecImpl<u8> for Card {
    open spec fn obeys_from_spec() -> bool {
        true
    }

    open spec fn from_spec(id: u8) -> Card {
        Card::of_id(id)
    }
}

impl From<Card> for u8 {
    fn from(c: Card) -> (id: u8) {
        if c.value == 0 {
            INVALID_ID
        } else {
            let wide: u16 = 13 * (c.suit as u16) + (c.value as u16) - 1;
            (wide % 256) as u8
        }
    }
}

impl FromSpecImpl<Card> for u8 {
    open spec fn obeys_from_spec() -> bool {
        true
    }

    open spec fn from_spec(c: Card) -> u8 {
        c.id()
    }
}

/// Every id below 52 decodes to a valid card, and that card encodes to the id
/// it came from.
pub proof fn lemma_id_round_trip(id: u8)
    requires
        id < INVALID_ID,
    ensures
        Card::of_id(id).is_valid(),
        Card::of_id(id).id() == id,
{
}

/// Every valid card encodes to an id below 52 that decodes to the card again,
/// so the encoding is a bijection between valid cards and the ids 0 to 51.
pub proof fn lemma_card_round_trip(c: Card)
    requires
        c.is_valid(),
    ensures
        c.id() < INVALID_ID,
        c.id() == 13 * c.suit + c.value - 1,
        Card::of_id(c.id()) == c,
{
}

} // verus!
