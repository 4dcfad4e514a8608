//! Sets of cards with a specific relationship: singles, builds, groups and
//! pairs, each with its cards and its calculated value.

use crate::card::{Card, Value};
use crate::pile::{lemma_rank_sum_concat, rank_sum};
use crate::render::{join, joined, texts};
use vstd::prelude::*;

verus! {

/// Set value errors
#[derive(Copy, Clone, Debug, PartialEq, Eq, Structural)]
pub enum SetError {
    TooFewCards,
    ValueTooHigh,
    ValueTooLow,
    ValueMismatch,
}

/// Set of cards with a specific relationship
pub trait CardSet {
    /// The cards of the set, in order.
    spec fn cards(&self) -> Seq<Card>;

    /// The value of the set, or the reason why it has none.
    spec fn value(&self) -> Result<Value, SetError>;

    /// Get all the cards in the set
    fn to_cards(&self) -> (r: Vec<Card>)
        ensures
            r@ == self.cards(),
    ;

    /// Get the calculated value of the set
    fn to_value(&self) -> (r: Result<Value, SetError>)
        ensures
            r == self.value(),
    ;
}

/// Set of cards that can be used in a build
pub trait Buildable: CardSet {

}

/// The value of a build of some cards: at least two cards are needed, and
/// their ranks must sum to a value from 1 to 10.
pub open spec fn build_value(cards: Seq<Card>) -> Result<Value, SetError> {
    if cards.len() < 2 {
        Err(SetError::TooFewCards)
    } else if rank_sum(cards) > 10 {
        Err(SetError::ValueTooHigh)
    } else if rank_sum(cards) == 0 {
        Err(SetError::ValueTooLow)
    } else {
        Ok(Value::of_rank(rank_sum(cards) as u8))
    }
}

/// The cards of some builds, build after build.
pub open spec fn build_cards(builds: Seq<Build>) -> Seq<Card>
    decreases builds.len(),
{
    if builds.len() == 0 {
        Seq::empty()
    } else {
        build_cards(builds.drop_last()) + builds.last().cards()
    }
}

/// The values of the members of a group: those of its builds, then that of
/// its root card.
pub open spec fn member_values(builds: Seq<Build>, root: Option<Single>) -> Seq<
    Result<Value, SetError>,
> {
    Seq::new(builds.len(), |i: int| builds[i].value()) + match root {
        Some(s) => seq![s.value()],
        None => Seq::empty(),
    }
}

/// The position of the first error from `from` on, or the number of values
/// where there is none.
pub open spec fn first_error(values: Seq<Result<Value, SetError>>, from: int) -> int
    decreases values.len() - from,
{
    if from >= values.len() {
        values.len() as int
    } else if from >= 0 && values[from] is Err {
        from
    } else {
        first_error(values, from + 1)
    }
}

/// Whether the values at `i` and after it differ.
pub open spec fn differ_at(values: Seq<Result<Value, SetError>>, i: int) -> bool {
    values[i] != values[i + 1]
}

/// The value that the members of a group agree on. The first member without
/// a value decides; else two neighbours that differ are a mismatch, and no
/// member at all is too few cards.
pub open spec fn agreed_value(values: Seq<Result<Value, SetError>>) -> Result<Value, SetError> {
    let k = first_error(values, 0);
    if k < values.len() {
        values[k]
    } else if exists|i: int| 0 <= i < values.len() - 1 && #[trigger] differ_at(values, i) {
        Err(SetError::ValueMismatch)
    } else if values.len() == 0 {
        Err(SetError::TooFewCards)
    } else {
        values[0]
    }
}

/// The root of two groups put together: the one root there is, and none
/// where both or neither has one.
pub open spec fn joined_root(a: Option<Single>, b: Option<Single>) -> Option<Single> {
    match (a, b) {
        (Some(x), None) => Some(x),
        (None, Some(y)) => Some(y),
        _ => None,
    }
}

/// Wrapper for a single card
#[derive(Copy, Clone, Debug)]
pub struct Single {
    card: Card,
}

impl Single {
    /// Single out a specific card
    pub fn new(c: Card) -> (s: Single)
        ensures
            s.cards() == seq![c],
            s.value() == Ok::<Value, SetError>(Value::of_rank(c.value)),
    {
        Single { card: c }
    }
}

impl Buildable for Single {

}

impl CardSet for Single {
    closed spec fn cards(&self) -> Seq<Card> {
        seq![self.card]
    }

    closed spec fn value(&self) -> Result<Value, SetError> {
        Ok(Value::of_rank(self.card.value))
    }

    fn to_cards(&self) -> (r: Vec<Card>) {
        let mut cards = Vec::new();
        cards.push(self.card);
        assert(cards@ =~= seq![self.card]);
        cards
    }

    fn to_value(&self) -> (r: Result<Value, SetError>) {
        Ok(Value::from_rank(self.card.value))
    }
}

/// A set of cards that add up to a sum
#[derive(Debug)]
pub struct Build {
    cards: Vec<Card>,
}

impl Clone for Build {
    fn clone(&self) -> (b: Build)
        ensures
            b.cards() == self.cards(),
            b.value() == self.value(),
    {
        let cards = self.cards.clone();
        assert(cards@ =~= self.cards@);
        Build { cards }
    }
}

impl Build {
    /// Get a build from a set of cards
    pub fn new(xs: Vec<Card>) -> (b: Build)
        ensures
            b.cards() == xs@,
            b.value() == build_value(xs@),
    {
        Build { cards: xs }
    }

    /// Get a build from two buildable sets
    pub fn build<A: Buildable, B: Buildable>(a: Box<&A>, b: Box<&B>) -> (z: Build)
        ensures
            z.cards() == a.cards() + b.cards(),
            z.value() == build_value(a.cards() + b.cards()),
    {
        let mut cards = a.to_cards();
        let mut more = b.to_cards();
        cards.append(&mut more);
        Build::new(cards)
    }
}

impl Buildable for Build {

}

impl CardSet for Build {
    closed spec fn cards(&self) -> Seq<Card> {
        self.cards@
    }

    closed spec fn value(&self) -> Result<Value, SetError> {
        build_value(self.cards@)
    }

    fn to_cards(&self) -> (r: Vec<Card>) {
        let cards = self.cards.clone();
        assert(cards@ =~= self.cards@);
        cards
    }

    fn to_value(&self) -> (r: Result<Value, SetError>) {
        if self.cards.len() < 2 {
            return Err(SetError::TooFewCards);
        }
        let ghost cards = self.cards@;
        let mut sum: u8 = 0;
        let mut i: usize = 0;
        assert(cards.take(0) =~= Seq::empty());
        while i < self.cards.len()
            invariant
                cards == self.cards@,
                cards.len() >= 2,
                i <= cards.len(),
                sum == rank_sum(cards.take(i as int)),
                sum <= 10,
            decreases self.cards.len() - i,
        {
            proof {
                lemma_rank_sum_concat(cards.take(i as int), seq![cards[i as int]]);
                assert(cards.take(i as int) + seq![cards[i as int]] =~= cards.take(i as int + 1));
                lemma_rank_sum_single(cards[i as int]);
            }
            if self.cards[i].value > 10 - sum {
                proof {
                    lemma_rank_sum_concat(cards.take(i as int + 1), cards.skip(i as int + 1));
                    assert(cards.take(i as int + 1) + cards.skip(i as int + 1) =~= cards);
                    lemma_rank_sum_bounds(cards.skip(i as int + 1));
                }
                return Err(SetError::ValueTooHigh);
            }
            sum += self.cards[i].value;
            i += 1;
        }
        assert(cards.take(i as int) =~= cards);
        if sum == 0 {
            Err(SetError::ValueTooLow)
        } else {
            Ok(Value::from_rank(sum))
        }
    }
}

/// The rank sum of one card is its rank.
pub proof fn lemma_rank_sum_single(c: Card)
    ensures
        rank_sum(seq![c]) == c.value,
{
    assert(seq![c].skip(1).len() == 0);
    assert(rank_sum(seq![c].skip(1)) == 0);
}

/// A rank sum is not negative.
pub proof fn lemma_rank_sum_bounds(cards: Seq<Card>)
    ensures
        rank_sum(cards) >= 0,
    decreases cards.len(),
{
    if cards.len() > 0 {
        lemma_rank_sum_bounds(cards.skip(1));
    }
}

/// A group of sets with the same values
#[derive(Debug)]
pub struct Group {
    builds: Vec<Build>,
    root: Option<Single>,
}

impl Group {
    /// The builds of the group, in order.
    pub closed spec fn builds(&self) -> Seq<Build> {
        self.builds@
    }

    /// The root card of the group, if it has one.
    pub closed spec fn root(&self) -> Option<Single> {
        self.root
    }

    /// The cards of a group of `builds` and `root`: those of the builds, then
    /// the root card.
    pub open spec fn cards_of(builds: Seq<Build>, root: Option<Single>) -> Seq<Card> {
        build_cards(builds) + match root {
            Some(s) => s.cards(),
            None => Seq::empty(),
        }
    }

    /// Get a group of sets with the same values
    pub fn new(b: Vec<Build>, r: Option<Single>) -> (g: Group)
        ensures
            g.builds() == b@,
            g.root() == r,
            g.cards() == Group::cards_of(b@, r),
            g.value() == agreed_value(member_values(b@, r)),
    {
        Group { builds: b, root: r }
    }

    /// Get a group from two different groups
    pub fn group(a: Group, b: Group) -> (g: Group)
        ensures
            g.builds() == a.builds() + b.builds(),
            g.root() == joined_root(a.root(), b.root()),
            g.cards() == Group::cards_of(g.builds(), g.root()),
            g.value() == agreed_value(member_values(g.builds(), g.root())),
    {
        let mut builds = a.builds;
        let mut more = b.builds;
        builds.append(&mut more);
        let root = match (a.root, b.root) {
            (Some(x), None) => Some(x),
            (None, Some(y)) => Some(y),
            _ => None,
        };
        Group::new(builds, root)
    }
}

impl CardSet for Group {
    closed spec fn cards(&self) -> Seq<Card> {
        Group::cards_of(self.builds@, self.root)
    }

    closed spec fn value(&self) -> Result<Value, SetError> {
        agreed_value(member_values(self.builds@, self.root))
    }

    fn to_cards(&self) -> (r: Vec<Card>) {
        let ghost builds = self.builds@;
        let mut cards: Vec<Card> = Vec::new();
        let mut i: usize = 0;
        assert(builds.take(0) =~= Seq::empty());
        while i < self.builds.len()
            invariant
                builds == self.builds@,
                i <= builds.len(),
                cards@ == build_cards(builds.take(i as int)),
            decreases self.builds.len() - i,
        {
            assert(builds.take(i as int + 1).drop_last() =~= builds.take(i as int));
            let mut more = self.builds[i].to_cards();
            cards.append(&mut more);
            i += 1;
        }
        assert(builds.take(i as int) =~= builds);
        match self.root {
            Some(s) => {
                let mut more = s.to_cards();
                cards.append(&mut more);
            },
            None => {
                assert(cards@ + Seq::<Card>::empty() =~= cards@);
            },
        }
        cards
    }

    fn to_value(&self) -> (r: Result<Value, SetError>) {
        let ghost values = member_values(self.builds@, self.root);
        let mut found: Vec<Value> = Vec::new();
        let mut i: usize = 0;
        while i < self.builds.len()
            invariant
                values == member_values(self.builds@, self.root),
                i <= self.builds.len(),
                found.len() == i,
                first_error(values, 0) == first_error(values, i as int),
                forall|k: int| 0 <= k < i ==> values[k] == Ok::<Value, SetError>(#[trigger] found@[k]),
            decreases self.builds.len() - i,
        {
            match self.builds[i].to_value() {
                Err(e) => {
                    return Err(e);
                },
                Ok(v) => {
                    found.push(v);
                },
            }
            i += 1;
        }
        match self.root {
            Some(s) => match s.to_value() {
                Err(e) => {
                    return Err(e);
                },
                Ok(v) => {
                    found.push(v);
                },
            },
            None => {},
        }
        assert(found.len() == values.len());
        assert(forall|k: int|
            0 <= k < values.len() ==> values[k] == Ok::<Value, SetError>(#[trigger] found@[k]));
        assert(first_error(values, 0) == values.len()) by {
            lemma_no_error(values, i as int);
        }
        let mut j: usize = 1;
        while j < found.len()
            invariant
                values == member_values(self.builds@, self.root),
                found.len() == values.len(),
                first_error(values, 0) == values.len(),
                1 <= j,
                forall|k: int|
                    0 <= k < values.len() ==> values[k] == Ok::<Value, SetError>(
                        #[trigger] found@[k],
                    ),
                forall|k: int| 0 <= k < j - 1 ==> !#[trigger] differ_at(values, k),
            decreases found.len() - j,
        {
            if found[j - 1] != found[j] {
                assert(differ_at(values, j - 1));
                return Err(SetError::ValueMismatch);
            }
            j += 1;
        }
        if found.len() == 0 {
            Err(SetError::TooFewCards)
        } else {
            Ok(found[0])
        }
    }
}

/// Values without an error from `from` on have no first error from there.
pub proof fn lemma_no_error(values: Seq<Result<Value, SetError>>, from: int)
    requires
        0 <= from,
        forall|k: int| from <= k < values.len() ==> #[trigger] values[k] is Ok,
    ensures
        first_error(values, from) == values.len(),
    decreases values.len() - from,
{
    if from < values.len() {
        lemma_no_error(values, from + 1);
    }
}

/// The cards of a pair: those of the target, then the capturing card.
pub open spec fn pair_cards(target: Seq<Card>, capture: Single) -> Seq<Card> {
    target + capture.cards()
}

/// The value of a pair: that of the capturing card, which the target must
/// have too. An error of the target comes before one of the card.
pub open spec fn pair_value(target: Result<Value, SetError>, capture: Single) -> Result<
    Value,
    SetError,
> {
    match target {
        Err(e) => Err(e),
        Ok(t) => match capture.value() {
            Err(e) => Err(e),
            Ok(c) => if t == c {
                Ok(c)
            } else {
                Err(SetError::ValueMismatch)
            },
        },
    }
}

/// A set of cards paired with a single capturing card
pub struct Pair<T: CardSet + ?Sized> {
    target: Box<T>,
    capture: Single,
}

impl<T: CardSet + ?Sized> Pair<T> {
    /// Get a pair from a group and a single
    pub fn new(t: Box<T>, c: Single) -> (p: Pair<T>)
        ensures
            p.cards() == pair_cards(t.cards(), c),
            p.value() == pair_value(t.value(), c),
    {
        Pair { target: t, capture: c }
    }
}

impl<T: CardSet + ?Sized> CardSet for Pair<T> {
    closed spec fn cards(&self) -> Seq<Card> {
        pair_cards(self.target.cards(), self.capture)
    }

    closed spec fn value(&self) -> Result<Value, SetError> {
        pair_value(self.target.value(), self.capture)
    }

    fn to_cards(&self) -> (r: Vec<Card>) {
        let mut cards = self.target.to_cards();
        let mut more = self.capture.to_cards();
        cards.append(&mut more);
        cards
    }

    fn to_value(&self) -> (r: Result<Value, SetError>) {
        let target = self.target.to_value()?;
        let capture = self.capture.to_value()?;
        if target == capture {
            Ok(capture)
        } else {
            Err(SetError::ValueMismatch)
        }
    }
}

/// The name of a value.
pub open spec fn value_name(v: Value) -> Seq<char> {
    match v {
        Value::Invalid => "Invalid"@,
        Value::Ace => "Ace"@,
        Value::Two => "Two"@,
        Value::Three => "Three"@,
        Value::Four => "Four"@,
        Value::Five => "Five"@,
        Value::Six => "Six"@,
        Value::Seven => "Seven"@,
        Value::Eight => "Eight"@,
        Value::Nine => "Nine"@,
        Value::Ten => "Ten"@,
        Value::Jack => "Jack"@,
        Value::Queen => "Queen"@,
        Value::King => "King"@,
    }
}

/// The name of a set value error.
pub open spec fn error_name(e: SetError) -> Seq<char> {
    match e {
        SetError::TooFewCards => "TooFewCards"@,
        SetError::ValueTooHigh => "ValueTooHigh"@,
        SetError::ValueTooLow => "ValueTooLow"@,
        SetError::ValueMismatch => "ValueMismatch"@,
    }
}

/// The text of the value of a set: the name of the value in `Ok(..)`, or
/// the name of the error in `Err(..)`.
pub open spec fn value_text(v: Result<Value, SetError>) -> Seq<char> {
    match v {
        Ok(v) => "Ok("@ + value_name(v) + ")"@,
        Err(e) => "Err("@ + error_name(e) + ")"@,
    }
}

/// The texts of some cards, in order.
pub open spec fn card_labels(cards: Seq<Card>) -> Seq<Seq<char>> {
    Seq::new(cards.len(), |i: int| cards[i].label())
}

/// The text of a set: its value, ` = `, and its cards in round brackets
/// with `+` between them.
pub open spec fn set_text(cards: Seq<Card>, value: Result<Value, SetError>) -> Seq<char> {
    value_text(value) + " = ("@ + joined(card_labels(cards), "+"@) + ")"@
}

/// Whether every card has a rank up to 13 and a suit up to 3, so that it
/// can be shown.
pub open spec fn showable(cards: Seq<Card>) -> bool {
    forall|i: int| 0 <= i < cards.len() ==> (#[trigger] cards[i]).value <= 13 && cards[i].suit <= 3
}

fn value_str(v: Value) -> (s: &'static str)
    ensures
        s@ == value_name(v),
{
    match v {
        Value::Invalid => "Invalid",
        Value::Ace => "Ace",
        Value::Two => "Two",
        Value::Three => "Three",
        Value::Four => "Four",
        Value::Five => "Five",
        Value::Six => "Six",
        Value::Seven => "Seven",
        Value::Eight => "Eight",
        Value::Nine => "Nine",
        Value::Ten => "Ten",
        Value::Jack => "Jack",
        Value::Queen => "Queen",
        Value::King => "King",
    }
}

fn error_str(e: SetError) -> (s: &'static str)
    ensures
        s@ == error_name(e),
{
    match e {
        SetError::TooFewCards => "TooFewCards",
        SetError::ValueTooHigh => "ValueTooHigh",
        SetError::ValueTooLow => "ValueTooLow",
        SetError::ValueMismatch => "ValueMismatch",
    }
}

/// Show a set as its value and its cards
pub fn describe<S: CardSet + ?Sized>(set: &S) -> (s: String)
    requires
        showable(set.cards()),
    ensures
        s@ == set_text(set.cards(), set.value()),
{
    let value = match set.to_value() {
        Ok(v) => String::from_str("Ok(").concat(value_str(v)).concat(")"),
        Err(e) => String::from_str("Err(").concat(error_str(e)).concat(")"),
    };
    let cards = set.to_cards();
    let mut shown: Vec<String> = Vec::new();
    let mut i: usize = 0;
    while i < cards.len()
        invariant
            i <= cards.len(),
            showable(cards@),
            shown.len() == i,
            forall|k: int| 0 <= k < i ==> (#[trigger] shown@[k])@ == cards@[k].label(),
        decreases cards.len() - i,
    {
        shown.push(cards[i].to_string());
        i += 1;
    }
    assert(texts(shown@) =~= card_labels(cards@));
    let inner = join(&shown, "+");
    value.concat(" = (").concat(inner.as_str()).concat(")")
}

} // verus!
