//! The seeded random number generator that shuffles the deck, and seeds
//! written as text.

use crate::card::Card;
use rand::seq::SliceRandom;
use rand::SeedableRng;
use rand_chacha::ChaCha20Rng;
use std::collections::VecDeque;
use vstd::prelude::*;
use vstd::utf8::encode_utf8;

verus! {

/// Suipi RNG seed
pub type Seed = [u8; 32];

/// Suipi game random number generator: the seed of a ChaCha generator with
/// 20 rounds, and how far it has run, in words of 32 bits.
#[derive(Copy, Clone, Debug, PartialEq, Eq)]
pub struct Rng {
    pub seed: Seed,
    pub word_pos: u128,
}

/// What a generator holds: the bytes of its seed and its position.
pub struct RngView {
    pub seed: Seq<u8>,
    pub word_pos: u128,
}

impl View for Rng {
    type V = RngView;

    open spec fn view(&self) -> RngView {
        RngView { seed: self.seed@, word_pos: self.word_pos }
    }
}

/// What a shuffle gives: the cards of `deck` in the order that the ChaCha
/// generator with 20 rounds, seeded with `seed` and run to the position
/// `word_pos`, shuffles them into, and the position of the generator after
/// the shuffle.
pub uninterp spec fn shuffle_of(seed: Seq<u8>, word_pos: u128, deck: Seq<Card>) -> (Seq<Card>, u128);

/// Calls `SliceRandom::shuffle` on the cards of the deck, which std's
/// `VecDeque::make_contiguous` hands out as one slice, with the generator
/// that `ChaCha20Rng::from_seed` and `set_word_pos` make of the seed and
/// the position, and reads the new position with `get_word_pos`. What comes
/// back is a function of the seed, the position and the deck alone. The
/// shuffle swaps cards in place, so the deck holds the same cards
/// afterwards, each as often as before.
#[verifier::external_body]
fn shuffle_cards(deck: &mut VecDeque<Card>, seed: &Seed, word_pos: u128) -> (next: u128)
    ensures
        (final(deck)@, next) == shuffle_of(seed@, word_pos, old(deck)@),
        final(deck)@.to_multiset() == old(deck)@.to_multiset(),
{
    let mut rng = ChaCha20Rng::from_seed(*seed);
    rng.set_word_pos(word_pos);
    deck.make_contiguous().shuffle(&mut rng);
    rng.get_word_pos()
}

/// Calls `rand::random` for a seed from the thread's generator. Nothing is
/// claimed of the seed that comes back.
#[verifier::external_body]
fn random_seed() -> Seed {
    rand::random()
}

impl RngView {
    /// The generator fresh from a seed.
    pub open spec fn seeded(seed: Seq<u8>) -> RngView {
        RngView { seed, word_pos: 0 }
    }

    /// The cards of `deck` in the order that this generator shuffles them
    /// into.
    pub open spec fn shuffled(self, deck: Seq<Card>) -> Seq<Card> {
        shuffle_of(self.seed, self.word_pos, deck).0
    }

    /// The generator after it has shuffled `deck`.
    pub open spec fn after(self, deck: Seq<Card>) -> RngView {
        RngView { word_pos: shuffle_of(self.seed, self.word_pos, deck).1, ..self }
    }
}

impl Rng {
    /// Get Suipi game RNG from a 256 bit seed
    pub fn from_seed(seed: Seed) -> (rng: Rng)
        ensures
            rng@ == RngView::seeded(seed@),
    {
        Rng { seed, word_pos: 0 }
    }

    /// Get Suipi game RNG from a random seed
    pub fn random() -> (rng: Rng)
        ensures
            rng.word_pos == 0,
    {
        Rng::from_seed(random_seed())
    }

    /// Shuffle a deck of cards
    pub fn shuffle(&mut self, deck: &mut VecDeque<Card>)
        ensures
            final(deck)@ == old(self)@.shuffled(old(deck)@),
            final(self)@ == old(self)@.after(old(deck)@),
            final(deck)@.to_multiset() == old(deck)@.to_multiset(),
    {
        self.word_pos = shuffle_cards(deck, &self.seed, self.word_pos);
    }
}

impl Default for Rng {
    fn default() -> (rng: Rng)
        ensures
            rng.word_pos == 0,
    {
        Rng::random()
    }
}

/// The line feed that ends a line of a seed text.
pub const LINE_FEED: u8 = 10;

/// Whether a byte is a decimal digit.
pub open spec fn is_digit(b: u8) -> bool {
    48 <= b <= 57
}

/// Whether every byte is a decimal digit.
pub open spec fn all_digits(digits: Seq<u8>) -> bool {
    forall|i: int| 0 <= i < digits.len() ==> is_digit(#[trigger] digits[i])
}

/// The number that decimal digits stand for.
pub open spec fn digits_value(digits: Seq<u8>) -> int
    decreases digits.len(),
{
    if digits.len() == 0 {
        0
    } else {
        10 * digits_value(digits.drop_last()) + (digits.last() - 48)
    }
}

/// The digits of a line: the line without the `+` it may start with.
pub open spec fn digits_of(line: Seq<u8>) -> Seq<u8> {
    if line.len() > 0 && line[0] == 43 {
        line.skip(1)
    } else {
        line
    }
}

/// The number of a line: the line must be one or more decimal digits,
/// with or without a `+` before them, that stand for a number up to 255.
pub open spec fn number_of(line: Seq<u8>) -> Option<u8> {
    let digits = digits_of(line);
    if digits.len() > 0 && all_digits(digits) && digits_value(digits) <= u8::MAX {
        Some(digits_value(digits) as u8)
    } else {
        None
    }
}

/// The numbers with the number of a line behind them, where it has one.
pub open spec fn with_number(numbers: Seq<u8>, line: Seq<u8>) -> Seq<u8> {
    match number_of(line) {
        Some(n) => numbers.push(n),
        None => numbers,
    }
}

/// The bytes behind the last line feed of a text.
pub open spec fn last_line(text: Seq<u8>) -> Seq<u8>
    decreases text.len(),
{
    if text.len() == 0 || text.last() == LINE_FEED {
        Seq::empty()
    } else {
        last_line(text.drop_last()).push(text.last())
    }
}

/// The numbers of the lines of a text that end in a line feed.
pub open spec fn ended_numbers(text: Seq<u8>) -> Seq<u8>
    decreases text.len(),
{
    if text.len() == 0 {
        Seq::empty()
    } else if text.last() == LINE_FEED {
        with_number(ended_numbers(text.drop_last()), last_line(text.drop_last()))
    } else {
        ended_numbers(text.drop_last())
    }
}

/// The numbers of a seed text: the number of each line that has one, in
/// order. Lines are divided by line feeds.
pub open spec fn numbers_of(text: Seq<u8>) -> Seq<u8> {
    with_number(ended_numbers(text), last_line(text))
}

/// The seed of some numbers: the numbers, then zeros up to 32 bytes.
pub open spec fn seed_of_numbers(numbers: Seq<u8>) -> Seq<u8> {
    Seq::new(
        32,
        |i: int|
            if i < numbers.len() {
                numbers[i]
            } else {
                0u8
            },
    )
}

/// Digits that go on from digits above 255 stand for a number above 255.
pub proof fn lemma_digits_grow(digits: Seq<u8>, n: int)
    requires
        0 <= n <= digits.len(),
        all_digits(digits),
        digits_value(digits.take(n)) > u8::MAX,
    ensures
        digits_value(digits) > u8::MAX,
    decreases digits.len() - n,
{
    if n < digits.len() {
        assert(digits.take(n + 1).drop_last() =~= digits.take(n));
        assert(is_digit(digits[n]));
        lemma_digits_grow(digits, n + 1);
    } else {
        assert(digits.take(n) =~= digits);
    }
}

/// Read the number of a line
pub fn parse_number(line: &Vec<u8>) -> (r: Option<u8>)
    ensures
        r == number_of(line@),
{
    let start: usize = if line.len() > 0 && line[0] == 43 {
        1
    } else {
        0
    };
    let ghost digits = digits_of(line@);
    if line.len() == start {
        return None;
    }
    let mut value: u16 = 0;
    let mut i: usize = start;
    assert(digits.take(0) =~= Seq::empty());
    while i < line.len()
        invariant
            start <= i <= line.len(),
            start <= 1,
            digits == digits_of(line@),
            digits == line@.skip(start as int),
            digits.len() > 0,
            value == digits_value(digits.take(i - start)),
            value <= u8::MAX,
            forall|k: int| 0 <= k < i - start ==> is_digit(#[trigger] digits[k]),
        decreases line.len() - i,
    {
        let b = line[i];
        assert(digits[i - start] == b);
        assert(digits.take(i - start + 1).drop_last() =~= digits.take(i - start));
        if b < 48 || b > 57 {
            return None;
        }
        value = 10 * value + (b - 48) as u16;
        if value > 255 {
            proof {
                if all_digits(digits) {
                    lemma_digits_grow(digits, i - start + 1);
                }
            }
            return None;
        }
        i += 1;
    }
    assert(digits.take(i - start) =~= digits);
    Some(value as u8)
}

/// Read the numbers of a seed text
pub fn seed_numbers(text: &str) -> (numbers: Vec<u8>)
    ensures
        numbers@ == numbers_of(encode_utf8(text@)),
{
    let bytes = text.as_bytes();
    let mut numbers: Vec<u8> = Vec::new();
    let mut line: Vec<u8> = Vec::new();
    let mut i: usize = 0;
    assert(bytes@.take(0) =~= Seq::empty());
    while i < bytes.len()
        invariant
            i <= bytes.len(),
            numbers@ == ended_numbers(bytes@.take(i as int)),
            line@ == last_line(bytes@.take(i as int)),
        decreases bytes.len() - i,
    {
        assert(bytes@.take(i as int + 1).drop_last() =~= bytes@.take(i as int));
        if bytes[i] == LINE_FEED {
            match parse_number(&line) {
                Some(n) => {
                    numbers.push(n);
                },
                None => {},
            }
            line = Vec::new();
        } else {
            line.push(bytes[i]);
        }
        i += 1;
    }
    assert(bytes@.take(i as int) =~= bytes@);
    match parse_number(&line) {
        Some(n) => {
            numbers.push(n);
        },
        None => {},
    }
    numbers
}

/// Get a seed from up to 32 numbers
pub fn seed_from(numbers: &Vec<u8>) -> (seed: Seed)
    requires
        numbers.len() <= 32,
    ensures
        seed@ == seed_of_numbers(numbers@),
{
    let mut seed: Seed = [0; 32];
    let mut i: usize = 0;
    while i < numbers.len()
        invariant
            i <= numbers.len(),
            numbers.len() <= 32,
            forall|k: int| 0 <= k < i ==> #[trigger] seed@[k] == numbers@[k],
            forall|k: int| i <= k < 32 ==> #[trigger] seed@[k] == 0,
        decreases numbers.len() - i,
    {
        seed[i] = numbers[i];
        i += 1;
    }
    assert(seed@ =~= seed_of_numbers(numbers@));
    seed
}

} // verus!
