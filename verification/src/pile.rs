//! Piles of cards and the build / group / pair algebra on them.

use crate::card::Card;
use vstd::prelude::*;

verus! {

/// Pile manipulation errors
#[derive(Copy, Clone, Debug, PartialEq, Eq, Structural)]
pub enum PileError {
    InvalidBuildArg,
    InvalidGroupArg,
    InvalidPairArg,
    BuildEqualValues,
    BuildHigherThanTen,
    GroupDifferentValues,
    GroupTwoSingles,
    PairDifferentValues,
}

impl PileError {
    /// The text of the error.
    pub open spec fn message(self) -> Seq<char> {
        match self {
            PileError::InvalidBuildArg => "You may not build using a group"@,
            PileError::InvalidGroupArg => "You may not group using a pair"@,
            PileError::InvalidPairArg => "Invalid pair argument"@,
            PileError::BuildEqualValues => "You may not build two cards with the same value"@,
            PileError::BuildHigherThanTen => "You may not build a value larger than 10"@,
            PileError::GroupDifferentValues => "You may not group two cards with different values"@,
            PileError::GroupTwoSingles => "You may not group two individual cards together"@,
            PileError::PairDifferentValues => "You may not pair a card with a pile that has a different value"@,
        }
    }

    /// Get the text of the error
    pub fn as_str(&self) -> (s: &'static str)
        ensures
            s@ == self.message(),
    {
        match self {
            PileError::InvalidBuildArg => "You may not build using a group",
            PileError::InvalidGroupArg => "You may not group using a pair",
            PileError::InvalidPairArg => "Invalid pair argument",
            PileError::BuildEqualValues => "You may not build two cards with the same value",
            PileError::BuildHigherThanTen => "You may not build a value larger than 10",
            PileError::GroupDifferentValues => "You may not group two cards with different values",
            PileError::GroupTwoSingles => "You may not group two individual cards together",
            PileError::PairDifferentValues => "You may not pair a card with a pile that has a different value",
        }
    }

    /// Show the error as text
    pub fn to_string(&self) -> (s: String)
        ensures
            s@ == self.message(),
    {
        String::from_str(self.as_str())
    }
}

/// A pile type marker
#[derive(Copy, Clone, Debug, PartialEq, Eq, Structural)]
pub enum Mark {
    Empty,
    Single,
    Build,
    Group,
    Pair,
}

impl Default for Mark {
    fn default() -> (m: Mark)
        ensures
            m == Mark::Empty,
    {
        Mark::Empty
    }
}

/// A pile of cards
#[derive(Debug, PartialEq, Eq)]
pub struct Pile {
    pub cards: Vec<Card>,
    pub value: u8,
    pub mark: Mark,
    pub owner: bool,
}

/// What a pile holds: its cards in order, its value, its marker and its owner flag.
pub struct PileView {
    pub cards: Seq<Card>,
    pub value: u8,
    pub mark: Mark,
    pub owner: bool,
}

impl View for Pile {
    type V = PileView;

    open spec fn view(&self) -> PileView {
        PileView { cards: self.cards@, value: self.value, mark: self.mark, owner: self.owner }
    }
}

/// The text of a digit.
pub open spec fn digit_label(d: u8) -> Seq<char> {
    if d == 0 {
        "0"@
    } else if d == 1 {
        "1"@
    } else if d == 2 {
        "2"@
    } else if d == 3 {
        "3"@
    } else if d == 4 {
        "4"@
    } else if d == 5 {
        "5"@
    } else if d == 6 {
        "6"@
    } else if d == 7 {
        "7"@
    } else if d == 8 {
        "8"@
    } else {
        "9"@
    }
}

/// The text of a number in decimal digits, without leading zeros.
pub open spec fn decimal(n: u8) -> Seq<char> {
    if n < 10 {
        digit_label(n)
    } else if n < 100 {
        digit_label(n / 10) + digit_label(n % 10)
    } else {
        digit_label(n / 100) + digit_label((n / 10) % 10) + digit_label(n % 10)
    }
}

fn digit_str(d: u8) -> (s: &'static str)
    requires
        d < 10,
    ensures
        s@ == digit_label(d),
{
    match d {
        0 => "0",
        1 => "1",
        2 => "2",
        3 => "3",
        4 => "4",
        5 => "5",
        6 => "6",
        7 => "7",
        8 => "8",
        _ => "9",
    }
}

/// Write a number in decimal digits
pub fn decimal_string(n: u8) -> (s: String)
    ensures
        s@ == decimal(n),
{
    if n < 10 {
        String::from_str(digit_str(n))
    } else if n < 100 {
        String::from_str(digit_str(n / 10)).concat(digit_str(n % 10))
    } else {
        String::from_str(digit_str(n / 100)).concat(digit_str((n / 10) % 10)).concat(
            digit_str(n % 10),
        )
    }
}

/// The sum of the ranks of some cards.
pub open spec fn rank_sum(cards: Seq<Card>) -> int
    decreases cards.len(),
{
    if cards.len() == 0 {
        0
    } else {
        cards[0].value + rank_sum(cards.skip(1))
    }
}

/// Whether `cards`, read from the left with `run` already counted, fall into
/// consecutive components that each sum to `value`, the last one complete.
pub open spec fn stacked(cards: Seq<Card>, value: int, run: int) -> bool
    decreases cards.len(),
{
    if cards.len() == 0 {
        run == 0
    } else if run + cards[0].value == value {
        stacked(cards.skip(1), value, 0)
    } else {
        run + cards[0].value < value && stacked(cards.skip(1), value, run + cards[0].value)
    }
}

/// Whether every card of a sequence is a valid card.
pub open spec fn all_valid(cards: Seq<Card>) -> bool {
    forall|i: int| 0 <= i < cards.len() ==> (#[trigger] cards[i]).is_valid()
}

/// The views of the piles of a sequence, in order.
pub open spec fn pile_views(piles: Seq<Pile>) -> Seq<PileView> {
    Seq::new(piles.len(), |i: int| piles[i]@)
}

/// The view of the outcome of a combination.
pub open spec fn outcome_view(r: Result<Pile, PileError>) -> Result<PileView, PileError> {
    match r {
        Ok(p) => Ok(p@),
        Err(e) => Err(e),
    }
}

impl PileView {
    /// The pile without cards.
    pub open spec fn empty() -> PileView {
        PileView { cards: Seq::empty(), value: 0, mark: Mark::Empty, owner: false }
    }

    /// The pile of one card.
    pub open spec fn single(card: Card) -> PileView {
        PileView { cards: seq![card], value: card.value, mark: Mark::Single, owner: false }
    }

    /// Whether the pile is marked empty.
    pub open spec fn is_empty(self) -> bool {
        self.mark == Mark::Empty
    }

    /// The invariant of a pile, by its marker. An empty pile has no cards and
    /// value 0; a single has one card and that card's rank; a build has at
    /// least two cards whose ranks sum to its value, between 1 and 10; a group
    /// has at least two cards that fall into components of its value each. A
    /// pair is out of play and unconstrained.
    pub open spec fn wf(self) -> bool {
        match self.mark {
            Mark::Empty => self.cards.len() == 0 && self.value == 0,
            Mark::Single => {
                &&& self.cards.len() == 1
                &&& self.cards[0].is_valid()
                &&& self.value == self.cards[0].value
            },
            Mark::Build => {
                &&& self.cards.len() >= 2
                &&& all_valid(self.cards)
                &&& rank_sum(self.cards) == self.value
                &&& 1 <= self.value <= 10
            },
            Mark::Group => {
                &&& self.cards.len() >= 2
                &&& all_valid(self.cards)
                &&& 1 <= self.value
                &&& stacked(self.cards, self.value as int, 0)
            },
            Mark::Pair => true,
        }
    }

    /// The text of a pile: `___` where it is empty, its card where it is a
    /// single, else its value in brackets after `B`, `G` or `P`.
    pub open spec fn label(self) -> Seq<char> {
        match self.mark {
            Mark::Empty => "___"@,
            Mark::Single => self.cards[0].label(),
            Mark::Build => "B{"@ + decimal(self.value) + "}"@,
            Mark::Group => "G["@ + decimal(self.value) + "]"@,
            Mark::Pair => "P<"@ + decimal(self.value) + ">"@,
        }
    }

    /// What is left of a pile whose cards went into a combination: the same
    /// value, marker and owner, and no cards.
    pub open spec fn drained(self) -> PileView {
        PileView { cards: Seq::empty(), ..self }
    }

    /// The pile with another owner flag.
    pub open spec fn owned_by(self, owner: bool) -> PileView {
        PileView { owner, ..self }
    }

    /// Whether the pile can go into a build: it is a single or a build.
    pub open spec fn buildable(self) -> bool {
        self.mark == Mark::Single || self.mark == Mark::Build
    }

    /// Whether the pile can go into a group: it is a single, a build or a
    /// group.
    pub open spec fn groupable(self) -> bool {
        self.mark == Mark::Group || self.mark == Mark::Build || self.mark == Mark::Single
    }

    /// Whether the pile can capture: it is a single.
    pub open spec fn pairable(self) -> bool {
        self.mark == Mark::Single
    }

    /// The build of two piles: both must be singles or builds, two singles
    /// must differ in value, and the values must sum to at most 10. The build
    /// holds the cards of `x`, then those of `y`.
    pub open spec fn build(x: PileView, y: PileView) -> Result<PileView, PileError> {
        if !x.buildable() || !y.buildable() {
            Err(PileError::InvalidBuildArg)
        } else if x.value == y.value && x.mark == Mark::Single && y.mark == Mark::Single {
            Err(PileError::BuildEqualValues)
        } else if x.value + y.value > 10 {
            Err(PileError::BuildHigherThanTen)
        } else {
            Ok(
                PileView {
                    cards: x.cards + y.cards,
                    value: (x.value + y.value) as u8,
                    mark: Mark::Build,
                    owner: false,
                },
            )
        }
    }

    /// The group of two piles: both must be singles, builds or groups, not
    /// both singles, and of equal value.
    pub open spec fn group(x: PileView, y: PileView) -> Result<PileView, PileError> {
        if !x.groupable() || !y.groupable() {
            Err(PileError::InvalidGroupArg)
        } else if x.mark == Mark::Single && y.mark == Mark::Single {
            Err(PileError::GroupTwoSingles)
        } else if x.value != y.value {
            Err(PileError::GroupDifferentValues)
        } else {
            Ok(
                PileView {
                    cards: x.cards + y.cards,
                    value: x.value,
                    mark: Mark::Group,
                    owner: false,
                },
            )
        }
    }

    /// The pair of a pile with a capturing card: `y` must be a single of the
    /// value of `x`.
    pub open spec fn pair(x: PileView, y: PileView) -> Result<PileView, PileError> {
        if !y.pairable() {
            Err(PileError::InvalidPairArg)
        } else if x.value != y.value {
            Err(PileError::PairDifferentValues)
        } else {
            Ok(
                PileView {
                    cards: x.cards + y.cards,
                    value: x.value,
                    mark: Mark::Pair,
                    owner: false,
                },
            )
        }
    }
}

impl Clone for Pile {
    fn clone(&self) -> (p: Pile)
        ensures
            p@ == self@,
    {
        let cards = self.cards.clone();
        assert(cards@ =~= self.cards@);
        Pile { cards, value: self.value, mark: self.mark, owner: self.owner }
    }
}

impl Default for Pile {
    fn default() -> (p: Pile)
        ensures
            p@ == PileView::empty(),
    {
        Pile { cards: Vec::new(), value: 0, mark: Mark::Empty, owner: false }
    }
}

impl Pile {
    /// Create a new pile
    pub fn new(cards: Vec<Card>, value: u8, mark: Mark) -> (p: Pile)
        ensures
            p@ == (PileView { cards: cards@, value, mark, owner: false }),
    {
        Pile { cards, value, mark, owner: false }
    }

    /// Create an empty pile
    pub fn empty() -> (p: Pile)
        ensures
            p@ == PileView::empty(),
            p@.wf(),
    {
        Pile::default()
    }

    /// Create a single card pile
    pub fn single(card: Card) -> (p: Pile)
        ensures
            p@ == PileView::single(card),
            card.is_valid() ==> p@.wf(),
    {
        let mut cards = Vec::new();
        cards.push(card);
        assert(cards@ =~= seq![card]);
        Pile::new(cards, card.value, Mark::Single)
    }

    /// Create a card in a single card pile
    pub fn card(value: u8, suit: u8) -> (p: Pile)
        ensures
            p@ == PileView::single(Card { value, suit }),
            (Card { value, suit }).is_valid() ==> p@.wf(),
    {
        Pile::single(Card::new(value, suit))
    }

    /// Is this pile empty?
    pub fn is_empty(&self) -> (b: bool)
        ensures
            b == self@.is_empty(),
    {
        self.mark == Mark::Empty
    }

    /// Is this pile a single?
    pub fn is_single(&self) -> (b: bool)
        ensures
            b == (self.mark == Mark::Single),
    {
        self.mark == Mark::Single
    }

    /// Is this pile a build?
    pub fn is_build(&self) -> (b: bool)
        ensures
            b == (self.mark == Mark::Build),
    {
        self.mark == Mark::Build
    }

    /// Is this pile a group?
    pub fn is_group(&self) -> (b: bool)
        ensures
            b == (self.mark == Mark::Group),
    {
        self.mark == Mark::Group
    }

    /// Is this pile a pair?
    pub fn is_pair(&self) -> (b: bool)
        ensures
            b == (self.mark == Mark::Pair),
    {
        self.mark == Mark::Pair
    }

    /// Show a pile as text
    pub fn to_string(&self) -> (s: String)
        requires
            self.mark is Single ==> self.cards.len() > 0 && self.cards[0].value <= 13
                && self.cards[0].suit <= 3,
        ensures
            s@ == self@.label(),
    {
        match self.mark {
            Mark::Empty => String::from_str("___"),
            Mark::Single => self.cards[0].to_string(),
            Mark::Build => {
                let value = decimal_string(self.value);
                String::from_str("B{").concat(value.as_str()).concat("}")
            },
            Mark::Group => {
                let value = decimal_string(self.value);
                String::from_str("G[").concat(value.as_str()).concat("]")
            },
            Mark::Pair => {
                let value = decimal_string(self.value);
                String::from_str("P<").concat(value.as_str()).concat(">")
            },
        }
    }

    /// Replace the current pile with another
    pub fn replace(&mut self, p: Pile) -> (x: Pile)
        ensures
            x@ == old(self)@,
            final(self)@ == p@,
    {
        let mut x = p;
        std::mem::swap(self, &mut x);
        x
    }

    /// Take the current pile value away
    pub fn take(&mut self) -> (x: Pile)
        ensures
            x@ == old(self)@,
            final(self)@ == PileView::empty(),
    {
        self.replace(Pile::empty())
    }

    /// Can I use this pile in a build?
    pub fn buildable(x: &Pile) -> (r: Result<(), PileError>)
        ensures
            r == (if x@.buildable() {
                Ok::<(), PileError>(())
            } else {
                Err(PileError::InvalidBuildArg)
            }),
    {
        if x.is_single() || x.is_build() {
            Ok(())
        } else {
            Err(PileError::InvalidBuildArg)
        }
    }

    /// Can I use this pile in a group?
    pub fn groupable(x: &Pile) -> (r: Result<(), PileError>)
        ensures
            r == (if x@.groupable() {
                Ok::<(), PileError>(())
            } else {
                Err(PileError::InvalidGroupArg)
            }),
    {
        if x.is_group() || x.is_build() || x.is_single() {
            Ok(())
        } else {
            Err(PileError::InvalidGroupArg)
        }
    }

    /// Can I pair this pile with another one?
    pub fn pairable(x: &Pile) -> (r: Result<(), PileError>)
        ensures
            r == (if x@.pairable() {
                Ok::<(), PileError>(())
            } else {
                Err(PileError::InvalidPairArg)
            }),
    {
        if x.is_single() {
            Ok(())
        } else {
            Err(PileError::InvalidPairArg)
        }
    }

    /// Are both piles singles?
    pub fn both_singles(x: &Pile, y: &Pile) -> (r: Result<(), PileError>)
        ensures
            r == (if x.mark == Mark::Single && y.mark == Mark::Single {
                Err::<(), PileError>(PileError::GroupTwoSingles)
            } else {
                Ok(())
            }),
    {
        if x.is_single() && y.is_single() {
            Err(PileError::GroupTwoSingles)
        } else {
            Ok(())
        }
    }

    /// Combine the cards from two piles
    pub fn cards(x: &mut Pile, y: &mut Pile) -> (cards: Vec<Card>)
        ensures
            cards@ == old(x)@.cards + old(y)@.cards,
            final(x)@ == old(x)@.drained(),
            final(y)@ == old(y)@.drained(),
    {
        let mut cards = Vec::new();
        cards.append(&mut x.cards);
        cards.append(&mut y.cards);
        cards
    }

    /// Create a build pile from two buildable piles
    pub fn build(x: &mut Pile, y: &mut Pile) -> (r: Result<Pile, PileError>)
        ensures
            outcome_view(r) == PileView::build(old(x)@, old(y)@),
            r is Ok ==> final(x)@ == old(x)@.drained() && final(y)@ == old(y)@.drained(),
            r is Err ==> final(x)@ == old(x)@ && final(y)@ == old(y)@,
            r is Ok && old(x)@.wf() && old(y)@.wf() ==> r->Ok_0@.wf(),
    {
        Pile::buildable(x)?;
        Pile::buildable(y)?;
        if x.value == y.value && x.is_single() && y.is_single() {
            Err(PileError::BuildEqualValues)
        } else if x.value as u16 + y.value as u16 > 10 {
            Err(PileError::BuildHigherThanTen)
        } else {
            proof {
                if x@.wf() && y@.wf() {
                    lemma_build_wf(x@, y@);
                }
            }
            let value = x.value + y.value;
            Ok(Pile::new(Pile::cards(x, y), value, Mark::Build))
        }
    }

    /// Create a group pile from two groupable piles
    pub fn group(x: &mut Pile, y: &mut Pile) -> (r: Result<Pile, PileError>)
        ensures
            outcome_view(r) == PileView::group(old(x)@, old(y)@),
            r is Ok ==> final(x)@ == old(x)@.drained() && final(y)@ == old(y)@.drained(),
            r is Err ==> final(x)@ == old(x)@ && final(y)@ == old(y)@,
            r is Ok && old(x)@.wf() && old(y)@.wf() ==> r->Ok_0@.wf(),
    {
        Pile::groupable(x)?;
        Pile::groupable(y)?;
        Pile::both_singles(x, y)?;
        if x.value != y.value {
            Err(PileError::GroupDifferentValues)
        } else {
            proof {
                if x@.wf() && y@.wf() {
                    lemma_group_wf(x@, y@);
                }
            }
            let value = x.value;
            Ok(Pile::new(Pile::cards(x, y), value, Mark::Group))
        }
    }

    /// Create a pair pile using a pairable pile
    pub fn pair(x: &mut Pile, y: &mut Pile) -> (r: Result<Pile, PileError>)
        ensures
            outcome_view(r) == PileView::pair(old(x)@, old(y)@),
            r is Ok ==> final(x)@ == old(x)@.drained() && final(y)@ == old(y)@.drained(),
            r is Err ==> final(x)@ == old(x)@ && final(y)@ == old(y)@,
    {
        Pile::pairable(y)?;
        if x.value != y.value {
            Err(PileError::PairDifferentValues)
        } else {
            let value = x.value;
            Ok(Pile::new(Pile::cards(x, y), value, Mark::Pair))
        }
    }
}

/// The rank sum of two runs of cards is the sum of their rank sums.
pub proof fn lemma_rank_sum_concat(a: Seq<Card>, b: Seq<Card>)
    ensures
        rank_sum(a + b) == rank_sum(a) + rank_sum(b),
    decreases a.len(),
{
    if a.len() == 0 {
        assert(a + b =~= b);
    } else {
        assert((a + b).skip(1) =~= a.skip(1) + b);
        lemma_rank_sum_concat(a.skip(1), b);
    }
}

/// Valid cards whose ranks fill what is missing of `value` after `run` make
/// up one component.
pub proof fn lemma_sum_is_stacked(cards: Seq<Card>, value: int, run: int)
    requires
        cards.len() >= 1,
        all_valid(cards),
        0 <= run,
        run + rank_sum(cards) == value,
    ensures
        stacked(cards, value, run),
    decreases cards.len(),
{
    let rest = cards.skip(1);
    assert(cards[0].is_valid());
    assert(forall|i: int| 0 <= i < rest.len() ==> rest[i] == cards[i + 1]);
    assert(rank_sum(cards) == cards[0].value + rank_sum(rest));
    if rest.len() == 0 {
        assert(rank_sum(rest) == 0);
        assert(stacked(rest, value, 0));
    } else {
        lemma_rank_sum_positive(rest);
        lemma_sum_is_stacked(rest, value, run + cards[0].value);
    }
}

/// Valid cards have a rank sum of at least their number.
pub proof fn lemma_rank_sum_positive(cards: Seq<Card>)
    requires
        all_valid(cards),
    ensures
        rank_sum(cards) >= cards.len(),
    decreases cards.len(),
{
    if cards.len() > 0 {
        let rest = cards.skip(1);
        assert(cards[0].is_valid());
        assert(forall|i: int| 0 <= i < rest.len() ==> rest[i] == cards[i + 1]);
        lemma_rank_sum_positive(rest);
    }
}

/// Components followed by components are components.
pub proof fn lemma_stacked_concat(a: Seq<Card>, b: Seq<Card>, value: int, run: int)
    requires
        stacked(a, value, run),
        stacked(b, value, 0),
    ensures
        stacked(a + b, value, run),
    decreases a.len(),
{
    if a.len() == 0 {
        assert(a + b =~= b);
    } else {
        assert((a + b).skip(1) =~= a.skip(1) + b);
        assert((a + b)[0] == a[0]);
        if run + a[0].value == value {
            lemma_stacked_concat(a.skip(1), b, value, 0);
        } else {
            lemma_stacked_concat(a.skip(1), b, value, run + a[0].value);
        }
    }
}

/// A well-formed single, build or group falls into components of its value.
pub proof fn lemma_groupable_is_stacked(p: PileView)
    requires
        p.wf(),
        p.groupable(),
    ensures
        p.cards.len() >= 1,
        all_valid(p.cards),
        stacked(p.cards, p.value as int, 0),
{
    match p.mark {
        Mark::Single => {
            assert(p.cards.skip(1).len() == 0);
            assert(rank_sum(p.cards.skip(1)) == 0);
            lemma_sum_is_stacked(p.cards, p.value as int, 0);
        },
        Mark::Build => {
            lemma_sum_is_stacked(p.cards, p.value as int, 0);
        },
        _ => {},
    }
}

/// The build of two well-formed piles is well formed.
pub proof fn lemma_build_wf(x: PileView, y: PileView)
    requires
        x.wf(),
        y.wf(),
        PileView::build(x, y) is Ok,
    ensures
        PileView::build(x, y)->Ok_0.wf(),
{
    lemma_rank_sum_concat(x.cards, y.cards);
    lemma_groupable_is_stacked(x);
    lemma_groupable_is_stacked(y);
    assert(rank_sum(x.cards) == x.value) by {
        if x.mark == Mark::Single {
            assert(rank_sum(x.cards.skip(1)) == 0);
        }
    }
    assert(rank_sum(y.cards) == y.value) by {
        if y.mark == Mark::Single {
            assert(rank_sum(y.cards.skip(1)) == 0);
        }
    }
    lemma_rank_sum_positive(x.cards);
    lemma_rank_sum_positive(y.cards);
}

/// The group of two well-formed piles is well formed.
pub proof fn lemma_group_wf(x: PileView, y: PileView)
    requires
        x.wf(),
        y.wf(),
        PileView::group(x, y) is Ok,
    ensures
        PileView::group(x, y)->Ok_0.wf(),
{
    lemma_groupable_is_stacked(x);
    lemma_groupable_is_stacked(y);
    lemma_stacked_concat(x.cards, y.cards, x.value as int, 0);
    lemma_rank_sum_positive(x.cards);
}

/// Building two piles in either order succeeds or fails alike, fails with
/// the same error, and gives the same value; the cards of the pile named
/// first come first.
pub proof fn lemma_build_commutes(x: PileView, y: PileView)
    ensures
        PileView::build(x, y) is Ok <==> PileView::build(y, x) is Ok,
        PileView::build(x, y) is Err ==> PileView::build(y, x) == PileView::build(x, y),
        PileView::build(x, y) is Ok ==> {
            &&& PileView::build(x, y)->Ok_0.value == PileView::build(y, x)->Ok_0.value
            &&& PileView::build(x, y)->Ok_0.value == x.value + y.value
            &&& PileView::build(x, y)->Ok_0.cards == x.cards + y.cards
            &&& PileView::build(y, x)->Ok_0.cards == y.cards + x.cards
        },
{
}

/// Building two piles that start with different cards gives other cards in
/// one order than in the other.
pub proof fn lemma_build_order_matters(x: PileView, y: PileView)
    requires
        PileView::build(x, y) is Ok,
        x.cards.len() > 0,
        y.cards.len() > 0,
        x.cards[0] != y.cards[0],
    ensures
        PileView::build(x, y)->Ok_0.cards != PileView::build(y, x)->Ok_0.cards,
{
    assert((x.cards + y.cards)[0] == x.cards[0]);
    assert((y.cards + x.cards)[0] == y.cards[0]);
}

/// A well-formed pile in play is marked empty exactly where it holds no
/// card, and exactly where its value is 0; it is a single exactly where it
/// holds one card.
pub proof fn lemma_wf_marks(p: PileView)
    requires
        p.wf(),
        p.mark != Mark::Pair,
    ensures
        p.mark == Mark::Empty <==> p.cards.len() == 0,
        p.mark == Mark::Empty <==> p.value == 0,
        p.mark == Mark::Single <==> p.cards.len() == 1,
{
    if p.mark == Mark::Single {
        assert(p.cards[0].is_valid());
    }
}

} // verus!
