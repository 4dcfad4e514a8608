//! The game state: the deck, the floor and the two players, and the
//! interpretation of a move as one turn on them.

use crate::action::{hand_count, move_validity, Action, Address, Move, MoveError, Operation};
use crate::card::Card;
use crate::invariants::{lemma_apply_compacts, lemma_apply_keeps};
use crate::pile::{all_valid, pile_views, Mark, Pile, PileError, PileView};
use crate::rng::{Rng, RngView};
use std::collections::VecDeque;
use vstd::prelude::*;
use vstd::std_specs::convert::FromSpecImpl;

verus! {

/// The number of slots on the floor.
pub const FLOOR_SIZE: usize = 13;

/// The number of slots in a hand.
pub const HAND_SIZE: usize = 8;

/// State manipulation errors
#[derive(Copy, Clone, Debug, PartialEq, Eq, Structural)]
pub enum StateError {
    InvalidAddress,
    InvalidDiscard,
    InvalidInput,
    InvalidMove(MoveError),
    InvalidPile(PileError),
    FloorIsFull,
    PileIsNotEmpty,
    OwnTooManyPiles,
    UnpairablePileValue,
    DuplicateFloorValue,
    OrphanedPile,
}

impl StateError {
    /// The text of the error: `State Error: `, then what went wrong, with
    /// the text of the move or pile error behind it where there is one.
    pub open spec fn message(self) -> Seq<char> {
        "State Error: "@ + match self {
            StateError::InvalidAddress => "Invalid address"@,
            StateError::InvalidDiscard => "Invalid discard"@,
            StateError::InvalidInput => "Invalid input"@,
            StateError::InvalidMove(e) => "Invalid move - "@ + e.message(),
            StateError::InvalidPile(e) => "Invalid pile - "@ + e.message(),
            StateError::FloorIsFull => "Floor is full"@,
            StateError::PileIsNotEmpty => "Pile is not empty"@,
            StateError::OwnTooManyPiles => "Owning too may piles"@,
            StateError::UnpairablePileValue => "Un-pairable pile value"@,
            StateError::DuplicateFloorValue => "Duplicate floor card"@,
            StateError::OrphanedPile => "Orphaned pile"@,
        }
    }

    /// Show the error as text
    pub fn to_string(&self) -> (s: String)
        ensures
            s@ == self.message(),
    {
        let head = String::from_str("State Error: ");
        match self {
            StateError::InvalidAddress => head.concat("Invalid address"),
            StateError::InvalidDiscard => head.concat("Invalid discard"),
            StateError::InvalidInput => head.concat("Invalid input"),
            StateError::InvalidMove(e) => {
                let s = head.concat("Invalid move - ").concat(e.as_str());
                assert(s@ =~= self.message());
                s
            },
            StateError::InvalidPile(e) => {
                let s = head.concat("Invalid pile - ").concat(e.as_str());
                assert(s@ =~= self.message());
                s
            },
            StateError::FloorIsFull => head.concat("Floor is full"),
            StateError::PileIsNotEmpty => head.concat("Pile is not empty"),
            StateError::OwnTooManyPiles => head.concat("Owning too may piles"),
            StateError::UnpairablePileValue => head.concat("Un-pairable pile value"),
            StateError::DuplicateFloorValue => head.concat("Duplicate floor card"),
            StateError::OrphanedPile => head.concat("Orphaned pile"),
        }
    }
}

impl From<MoveError> for StateError {
    fn from(value: MoveError) -> (e: StateError) {
        StateError::InvalidMove(value)
    }
}

impl FromSpecImpl<MoveError> for StateError {
    open spec fn obeys_from_spec() -> bool {
        true
    }

    open spec fn from_spec(value: MoveError) -> StateError {
        StateError::InvalidMove(value)
    }
}

impl From<PileError> for StateError {
    fn from(value: PileError) -> (e: StateError) {
        StateError::InvalidPile(value)
    }
}

impl FromSpecImpl<PileError> for StateError {
    open spec fn obeys_from_spec() -> bool {
        true
    }

    open spec fn from_spec(value: PileError) -> StateError {
        StateError::InvalidPile(value)
    }
}

/// The state of a player
#[derive(Debug, PartialEq, Eq)]
pub struct Player {
    pub hand: Vec<Pile>,
    pub pairs: Vec<Pile>,
    pub suipi_count: u8,
}

/// What a player holds: the piles of the hand, slot by slot, the captured
/// pairs in the order of capture, and the number of times the player cleared
/// the floor.
pub struct PlayerView {
    pub hand: Seq<PileView>,
    pub pairs: Seq<PileView>,
    pub suipi_count: u8,
}

impl View for Player {
    type V = PlayerView;

    open spec fn view(&self) -> PlayerView {
        PlayerView {
            hand: pile_views(self.hand@),
            pairs: pile_views(self.pairs@),
            suipi_count: self.suipi_count,
        }
    }
}

/// The state of a game
#[derive(Debug, PartialEq, Eq)]
pub struct State {
    pub deck: VecDeque<Card>,
    pub floor: Vec<Pile>,
    pub dealer: Player,
    pub opponent: Player,
    pub turn: bool,
    pub last_score: bool,
}

/// What a state holds: the deck from its front, the floor slot by slot, the
/// two players, whose turn it is (`true` for the dealer) and who captured last.
pub struct StateView {
    pub deck: Seq<Card>,
    pub floor: Seq<PileView>,
    pub dealer: PlayerView,
    pub opponent: PlayerView,
    pub turn: bool,
    pub last_score: bool,
}

impl View for State {
    type V = StateView;

    open spec fn view(&self) -> StateView {
        StateView {
            deck: self.deck@,
            floor: pile_views(self.floor@),
            dealer: self.dealer@,
            opponent: self.opponent@,
            turn: self.turn,
            last_score: self.last_score,
        }
    }
}

/// The way two piles are combined.
#[derive(Copy, Clone, Debug, PartialEq, Eq, Structural)]
pub enum Combination {
    Build,
    Group,
    Pair,
}

impl Combination {
    /// The pile that two piles combine to in this way.
    pub open spec fn reduce(self, x: PileView, y: PileView) -> Result<PileView, PileError> {
        match self {
            Combination::Build => PileView::build(x, y),
            Combination::Group => PileView::group(x, y),
            Combination::Pair => PileView::pair(x, y),
        }
    }
}

/// A state together with the outcome of the step that led to it.
pub struct Step {
    pub state: StateView,
    pub result: Result<(), StateError>,
}

/// A state while the builds of a move are made: the addresses set aside to
/// be grouped or paired afterwards, and the outcome so far.
pub struct Pass {
    pub state: StateView,
    pub roots: Seq<Address>,
    pub result: Result<(), StateError>,
}

/// The number of piles that hold a card.
pub open spec fn count_filled(piles: Seq<PileView>) -> nat
    decreases piles.len(),
{
    if piles.len() == 0 {
        0
    } else {
        count_filled(piles.drop_last()) + if piles.last().is_empty() {
            0nat
        } else {
            1nat
        }
    }
}

/// The number of cards in some piles.
pub open spec fn count_cards(piles: Seq<PileView>) -> nat
    decreases piles.len(),
{
    if piles.len() == 0 {
        0
    } else {
        count_cards(piles.drop_last()) + piles.last().cards.len()
    }
}

/// The cards of some piles, pile after pile.
pub open spec fn all_cards(piles: Seq<PileView>) -> Seq<Card>
    decreases piles.len(),
{
    if piles.len() == 0 {
        Seq::empty()
    } else {
        all_cards(piles.drop_last()) + piles.last().cards
    }
}

/// The number of piles of more than one card that carry the owner flag `turn`.
pub open spec fn count_stacks(piles: Seq<PileView>, turn: bool) -> nat
    decreases piles.len(),
{
    if piles.len() == 0 {
        0
    } else {
        count_stacks(piles.drop_last(), turn) + if piles.last().is_stack_of(turn) {
            1nat
        } else {
            0nat
        }
    }
}

/// Whether no two non-empty piles have the same value.
pub open spec fn unique_values(piles: Seq<PileView>) -> bool {
    forall|i: int, j: int|
        0 <= i < j < piles.len() && !(#[trigger] piles[i]).is_empty() && !(
        #[trigger] piles[j]).is_empty() ==> piles[i].value != piles[j].value
}

/// Whether one of the piles, empty or not, has the value `value`.
pub open spec fn has_value(piles: Seq<PileView>, value: u8) -> bool {
    exists|i: int| 0 <= i < piles.len() && (#[trigger] piles[i]).value == value
}

/// The index of the first empty pile from `from` on, or the number of piles
/// where there is none.
pub open spec fn first_empty(piles: Seq<PileView>, from: int) -> int
    decreases piles.len() - from,
{
    if from >= piles.len() {
        piles.len() as int
    } else if from >= 0 && piles[from].is_empty() {
        from
    } else {
        first_empty(piles, from + 1)
    }
}

/// The non-empty piles, in order.
pub open spec fn filled(piles: Seq<PileView>) -> Seq<PileView>
    decreases piles.len(),
{
    if piles.len() == 0 {
        Seq::empty()
    } else if piles.last().is_empty() {
        filled(piles.drop_last())
    } else {
        filled(piles.drop_last()).push(piles.last())
    }
}

/// The piles, followed by as many empty piles as it takes to fill the floor.
pub open spec fn padded(piles: Seq<PileView>) -> Seq<PileView> {
    if piles.len() >= FLOOR_SIZE {
        piles
    } else {
        piles + Seq::new((FLOOR_SIZE - piles.len()) as nat, |i: int| PileView::empty())
    }
}

/// The 52 cards in the order of their ids.
pub open spec fn full_deck() -> Seq<Card> {
    Seq::new(52, |i: int| Card::of_id(i as u8))
}

/// The pile dealt from the card at position `k` of a deck: a single of that
/// card, or an empty pile where the deck is too short.
pub open spec fn dealt_pile(deck: Seq<Card>, k: int) -> PileView {
    if 0 <= k < deck.len() {
        PileView::single(deck[k])
    } else {
        PileView::empty()
    }
}

/// Whether the floor has unique values with a single of `card` in slot `i`.
pub open spec fn fits(floor: Seq<PileView>, i: int, card: Card) -> bool {
    unique_values(floor.update(i, PileView::single(card)))
}

/// The position of the first card of the deck from `from` on that fits into
/// slot `i` of the floor, or the length of the deck where none does.
pub open spec fn first_fit(deck: Seq<Card>, floor: Seq<PileView>, i: int, from: int) -> int
    decreases deck.len() - from,
{
    if from >= deck.len() {
        deck.len() as int
    } else if from >= 0 && fits(floor, i, deck[from]) {
        from
    } else {
        first_fit(deck, floor, i, from + 1)
    }
}

/// Whether the non-empty piles come before the empty ones.
pub open spec fn compact(piles: Seq<PileView>) -> bool {
    forall|i: int, j: int|
        0 <= i < j < piles.len() && (#[trigger] piles[i]).is_empty() ==> (
        #[trigger] piles[j]).is_empty()
}

/// Whether no pile holds more than one card.
pub open spec fn flat(piles: Seq<PileView>) -> bool {
    forall|i: int| 0 <= i < piles.len() ==> (#[trigger] piles[i]).cards.len() <= 1
}

/// Whether every pile is well formed and none is a pair.
pub open spec fn piles_in_play(piles: Seq<PileView>) -> bool {
    forall|i: int|
        0 <= i < piles.len() ==> (#[trigger] piles[i]).wf() && piles[i].mark != Mark::Pair
}

impl PileView {
    /// Whether a pile is a stack of the player with the flag `turn`: it holds
    /// more than one card and carries that flag.
    pub open spec fn is_stack_of(self, turn: bool) -> bool {
        self.cards.len() > 1 && self.owner == turn
    }
}

impl PlayerView {
    /// The player with nothing in hand and nothing captured.
    pub open spec fn empty() -> PlayerView {
        PlayerView { hand: Seq::empty(), pairs: Seq::empty(), suipi_count: 0 }
    }

    /// The number of cards in hand and in the captured pairs.
    pub open spec fn card_total(self) -> nat {
        count_cards(self.hand) + count_cards(self.pairs)
    }
}

impl StateView {
    /// The state before anything is dealt.
    pub open spec fn empty() -> StateView {
        StateView {
            deck: Seq::empty(),
            floor: Seq::empty(),
            dealer: PlayerView::empty(),
            opponent: PlayerView::empty(),
            turn: false,
            last_score: false,
        }
    }

    /// The player whose turn it is.
    pub open spec fn player(self) -> PlayerView {
        if self.turn {
            self.dealer
        } else {
            self.opponent
        }
    }

    /// The state with `p` in the place of the player whose turn it is.
    pub open spec fn with_player(self, p: PlayerView) -> StateView {
        if self.turn {
            StateView { dealer: p, ..self }
        } else {
            StateView { opponent: p, ..self }
        }
    }

    /// The piles that an address points into: the hand of the player whose
    /// turn it is, or the floor.
    pub open spec fn piles(self, a: Address) -> Seq<PileView> {
        match a {
            Address::Hand(_) => self.player().hand,
            Address::Floor(_) => self.floor,
        }
    }

    /// The state with `piles` in the place that an address points into.
    pub open spec fn with_piles(self, a: Address, piles: Seq<PileView>) -> StateView {
        match a {
            Address::Hand(_) => self.with_player(PlayerView { hand: piles, ..self.player() }),
            Address::Floor(_) => StateView { floor: piles, ..self },
        }
    }

    /// Whether an address names a slot that exists.
    pub open spec fn in_range(self, a: Address) -> bool {
        a.slot() < self.piles(a).len()
    }

    /// The pile at an address.
    pub open spec fn pile(self, a: Address) -> PileView {
        self.piles(a)[a.slot()]
    }

    /// The state with `p` at an address.
    pub open spec fn with_pile(self, a: Address, p: PileView) -> StateView {
        self.with_piles(a, self.piles(a).update(a.slot(), p))
    }

    /// Whether the floor has 13 slots and each hand 8.
    pub open spec fn seated(self) -> bool {
        &&& self.floor.len() == FLOOR_SIZE
        &&& self.dealer.hand.len() == HAND_SIZE
        &&& self.opponent.hand.len() == HAND_SIZE
    }

    /// Whether the cards of the deck are valid and the piles on the floor and
    /// in the hands are well formed and in play.
    pub open spec fn wf(self) -> bool {
        &&& all_valid(self.deck)
        &&& piles_in_play(self.floor)
        &&& piles_in_play(self.dealer.hand)
        &&& piles_in_play(self.opponent.hand)
    }

    /// Whether no pile of a hand holds more than one card.
    pub open spec fn hands_flat(self) -> bool {
        flat(self.dealer.hand) && flat(self.opponent.hand)
    }

    /// Whether each player owns one stack on the floor at most.
    pub open spec fn owned_once(self) -> bool {
        count_stacks(self.floor, true) <= 1 && count_stacks(self.floor, false) <= 1
    }

    /// Whether a game is being played on the state: it is well formed, the
    /// floor and the hands have their slots, all 52 cards are in it, no two
    /// non-empty floor piles have the same value, each player owns one stack
    /// at most, and the hands hold single cards.
    pub open spec fn in_play(self) -> bool {
        &&& self.wf()
        &&& self.seated()
        &&& self.card_total() == 52
        &&& self.unique_floor()
        &&& self.owned_once()
        &&& self.hands_flat()
    }

    /// The number of cards in the deck, on the floor, in the hands and in the
    /// captured pairs.
    pub open spec fn card_total(self) -> nat {
        self.deck.len() + count_cards(self.floor) + self.dealer.card_total()
            + self.opponent.card_total()
    }

    /// The state after taking the pile at an address: an empty pile stays,
    /// another leaves an empty pile behind.
    pub open spec fn take(self, a: Address) -> StateView {
        if self.pile(a).is_empty() {
            self
        } else {
            self.with_pile(a, PileView::empty())
        }
    }

    /// The number of stacks on the floor that belong to the player whose turn
    /// it is.
    pub open spec fn stacks(self) -> nat {
        count_stacks(self.floor, self.turn)
    }

    /// Whether no two non-empty floor piles have the same value.
    pub open spec fn unique_floor(self) -> bool {
        unique_values(self.floor)
    }

    /// The number of non-empty piles on the floor.
    pub open spec fn floor_count(self) -> nat {
        count_filled(self.floor)
    }

    /// The state with `z` added to the pairs of the player whose turn it is.
    pub open spec fn captured(self, z: PileView) -> StateView {
        self.with_player(PlayerView { pairs: self.player().pairs.push(z), ..self.player() })
    }

    /// The state after combining the piles at `a` and `b`. Two different
    /// addresses of non-empty piles are needed, else the address is invalid.
    /// Where the piles do not combine, the state stays as it is. Where they
    /// do, both leave their slots and the combination, owned by the player
    /// whose turn it is, goes to `a`, or to that player's pairs if it is a
    /// pair.
    pub open spec fn combine(self, kind: Combination, a: Address, b: Address) -> Step {
        let x = self.pile(a);
        let y = self.pile(b);
        if a == b || x.is_empty() || y.is_empty() {
            Step { state: self, result: Err(StateError::InvalidAddress) }
        } else {
            match kind.reduce(x, y) {
                Err(e) => Step { state: self, result: Err(StateError::InvalidPile(e)) },
                Ok(z) => {
                    let cleared = self.with_pile(a, PileView::empty()).with_pile(
                        b,
                        PileView::empty(),
                    );
                    let z = z.owned_by(self.turn);
                    match kind {
                        Combination::Pair => Step { state: cleared.captured(z), result: Ok(()) },
                        _ => Step { state: cleared.with_pile(a, z), result: Ok(()) },
                    }
                },
            }
        }
    }

    /// The state after building the pile at `b` onto the pile at `a`.
    pub open spec fn build(self, a: Address, b: Address) -> Step {
        self.combine(Combination::Build, a, b)
    }

    /// The state after grouping the pile at `b` into the pile at `a`.
    pub open spec fn group(self, a: Address, b: Address) -> Step {
        self.combine(Combination::Group, a, b)
    }

    /// The state after pairing the pile at `a` with the card at `b`: a
    /// capture, after which the player whose turn it is has scored last.
    pub open spec fn pair(self, a: Address, b: Address) -> Step {
        let step = self.combine(Combination::Pair, a, b);
        if step.result is Ok {
            Step { state: StateView { last_score: self.turn, ..step.state }, result: step.result }
        } else {
            step
        }
    }

    /// The state after compacting the floor: the non-empty piles move to the
    /// front in their order, and empty piles fill the floor up to 13 slots.
    pub open spec fn collapse(self) -> StateView {
        StateView { floor: padded(filled(self.floor)), ..self }
    }

    /// The state after discarding the card at `a`. A player who owns a stack
    /// may not discard. The card must come from a hand slot that is not
    /// empty; it goes to the first empty slot of the floor, which must exist,
    /// and the floor must still have unique values with it. On any error the
    /// state stays as it is.
    pub open spec fn discard(self, a: Address) -> Step {
        let j = first_empty(self.floor, 0);
        let cleared = self.with_pile(a, PileView::empty());
        let placed = StateView { floor: cleared.floor.update(j, self.pile(a)), ..cleared };
        if self.stacks() != 0 {
            Step { state: self, result: Err(StateError::InvalidDiscard) }
        } else if a is Floor {
            Step { state: self, result: Err(StateError::InvalidAddress) }
        } else if self.pile(a).is_empty() {
            Step { state: self, result: Err(StateError::InvalidDiscard) }
        } else if j >= self.floor.len() {
            Step { state: self, result: Err(StateError::FloorIsFull) }
        } else if !placed.unique_floor() {
            Step { state: self, result: Err(StateError::InvalidDiscard) }
        } else {
            Step { state: placed, result: Ok(()) }
        }
    }

    /// Whether the floor pile in slot `j` is orphaned: it is a stack of the
    /// player whose turn it is, it has the value of that player's last
    /// capture, and no pile of that player's hand has its value.
    pub open spec fn orphan_at(self, j: int) -> bool {
        &&& self.player().pairs.len() > 0
        &&& self.floor[j].is_stack_of(self.turn)
        &&& self.floor[j].value == self.player().pairs.last().value
        &&& !has_value(self.player().hand, self.floor[j].value)
    }

    /// Whether the player whose turn it is has captured a pile and left a
    /// stack of the same value without a card in hand to capture it.
    pub open spec fn orphaned(self) -> bool {
        exists|j: int| 0 <= j < self.floor.len() && #[trigger] self.orphan_at(j)
    }

    /// The address at which the pile at `a` lies once the floor is compacted:
    /// a non-empty floor pile moves down by the number of empty slots before
    /// it, and nothing moves in a hand.
    pub open spec fn landing(self, a: Address) -> Address {
        match a {
            Address::Floor(j) => if j < self.floor.len() && !self.floor[j as int].is_empty() {
                Address::Floor(count_filled(self.floor.take(j as int)) as u8)
            } else {
                a
            },
            Address::Hand(_) => a,
        }
    }

    /// Whether a turn that ended at `destination` leaves a valid state. The
    /// player may own at most one stack. Unless the turn was a pair, some
    /// pile of the player's hand must have the value of the pile at
    /// `destination`. The floor must have unique values. A pair must not
    /// leave a stack of the captured value with its owner and no card in
    /// that player's hand to capture it.
    pub open spec fn validate_turn(self, destination: Address, pair: bool) -> Result<
        (),
        StateError,
    > {
        if self.stacks() > 1 {
            Err(StateError::OwnTooManyPiles)
        } else if !pair && !has_value(self.player().hand, self.pile(destination).value) {
            Err(StateError::UnpairablePileValue)
        } else if !self.unique_floor() {
            Err(StateError::DuplicateFloorValue)
        } else if pair && self.orphaned() {
            Err(StateError::OrphanedPile)
        } else {
            Ok(())
        }
    }

    /// Whether `next` holds what a step from a well-formed state must keep:
    /// valid cards in well-formed piles, a floor of 13 slots and hands of 8,
    /// the same deck and turn, and the same number of cards.
    pub open spec fn kept_in(self, next: StateView) -> bool {
        self.wf() ==> {
            &&& next.wf()
            &&& next.seated()
            &&& next.turn == self.turn
            &&& next.deck == self.deck
            &&& next.card_total() == self.card_total()
        }
    }

    /// Whether every address of some actions names a slot that exists.
    pub open spec fn covers(self, actions: Seq<Action>) -> bool {
        forall|i: int| 0 <= i < actions.len() ==> self.in_range((#[trigger] actions[i]).address)
    }

    /// Whether two states have floors and hands of the same lengths and the
    /// same turn, so that the same addresses name slots in both.
    pub open spec fn same_shape(self, other: StateView) -> bool {
        &&& self.floor.len() == other.floor.len()
        &&& self.dealer.hand.len() == other.dealer.hand.len()
        &&& self.opponent.hand.len() == other.opponent.hand.len()
        &&& self.turn == other.turn
    }

    /// The first pass over a move, after `k` of its pairs of neighbouring
    /// actions, taken from the end of the move. Where the right action of a
    /// pair is active, its pile is built onto the pile of the left one at
    /// once; where it is passive, its address is set aside. The first error
    /// ends the pass.
    pub open spec fn build_pass(self, actions: Seq<Action>, k: nat) -> Pass
        decreases k,
    {
        if k == 0 {
            Pass { state: self, roots: Seq::empty(), result: Ok(()) }
        } else {
            let prev = self.build_pass(actions, (k - 1) as nat);
            let left = actions[actions.len() - 1 - k];
            let right = actions[actions.len() - k];
            if prev.result is Err {
                prev
            } else if right.operation == Operation::Passive {
                Pass { roots: prev.roots.push(right.address), ..prev }
            } else {
                let step = prev.state.build(left.address, right.address);
                Pass { state: step.state, roots: prev.roots, result: step.result }
            }
        }
    }

    /// The second pass over a move, after `k` of the addresses set aside,
    /// taken from the one set aside last. Each is grouped into the pile at
    /// `destination`; the one set aside first is paired with it instead where
    /// the move is a pair. The first error ends the pass.
    pub open spec fn root_pass(
        self,
        destination: Address,
        roots: Seq<Address>,
        pair: bool,
        k: nat,
    ) -> Step
        decreases k,
    {
        if k == 0 {
            Step { state: self, result: Ok(()) }
        } else {
            let prev = self.root_pass(destination, roots, pair, (k - 1) as nat);
            let root = roots[roots.len() - k];
            if prev.result is Err {
                prev
            } else if k == roots.len() && pair {
                prev.state.pair(destination, root)
            } else {
                prev.state.group(destination, root)
            }
        }
    }

    /// The state after a move and the move's outcome. The move must have a
    /// valid shape. Its builds are made, then its groups and its pair, all
    /// into the pile at the address of its first action; the move is a pair
    /// where that action is active. The floor is compacted. A move that ends
    /// in the hand and is no pair is a discard. At last the turn is
    /// validated, for the place where the resulting pile lies after the
    /// compaction. The first error ends the move and leaves the state as it
    /// was reached.
    pub open spec fn apply(self, actions: Seq<Action>) -> Step {
        let destination = actions[0].address;
        let pair = actions[0].operation == Operation::Active;
        let built = self.build_pass(actions, (actions.len() - 1) as nat);
        let rooted = built.state.root_pass(destination, built.roots, pair, built.roots.len());
        let collapsed = rooted.state.collapse();
        let discarded = if destination is Hand && !pair {
            collapsed.discard(destination)
        } else {
            Step { state: collapsed, result: Ok(()) }
        };
        match move_validity(actions) {
            Err(e) => Step { state: self, result: Err(StateError::InvalidMove(e)) },
            Ok(_) => if built.result is Err {
                Step { state: built.state, result: built.result }
            } else if rooted.result is Err {
                rooted
            } else if discarded.result is Err {
                discarded
            } else {
                Step {
                    state: discarded.state,
                    result: discarded.state.validate_turn(
                        rooted.state.landing(destination),
                        pair,
                    ),
                }
            },
        }
    }

    /// The state with the 52 cards added to the back of the deck.
    pub open spec fn init_deck(self) -> StateView {
        StateView { deck: self.deck + full_deck(), ..self }
    }

    /// The state with the deck in the order that a generator shuffles it
    /// into.
    pub open spec fn shuffle_deck(self, rng: RngView) -> StateView {
        StateView { deck: rng.shuffled(self.deck), ..self }
    }

    /// The state after one pile is dealt: the deck without its first card.
    pub open spec fn deal_pile(self) -> StateView {
        if self.deck.len() > 0 {
            StateView { deck: self.deck.skip(1), ..self }
        } else {
            self
        }
    }

    /// The state after the hands are dealt: the first 16 cards leave the
    /// deck, in turn to the opponent and to the dealer, and what either held
    /// in hand before is gone. Where the deck runs out, empty piles are dealt.
    pub open spec fn deal_hands(self) -> StateView {
        StateView {
            deck: if self.deck.len() >= 2 * HAND_SIZE {
                self.deck.skip(2 * HAND_SIZE as int)
            } else {
                Seq::empty()
            },
            opponent: PlayerView {
                hand: Seq::new(HAND_SIZE as nat, |i: int| dealt_pile(self.deck, 2 * i)),
                ..self.opponent
            },
            dealer: PlayerView {
                hand: Seq::new(HAND_SIZE as nat, |i: int| dealt_pile(self.deck, 2 * i + 1)),
                ..self.dealer
            },
            ..self
        }
    }

    /// The state after slot `i` of the floor is dealt: the first card of the
    /// deck that fits goes there, and the cards before it go to the back of
    /// the deck in their order. Where no card fits, nothing changes.
    pub open spec fn deal_slot(self, i: int) -> StateView {
        let k = first_fit(self.deck, self.floor, i, 0);
        if k >= self.deck.len() {
            self
        } else {
            StateView {
                deck: self.deck.skip(k + 1) + self.deck.take(k),
                floor: self.floor.update(i, PileView::single(self.deck[k])),
                ..self
            }
        }
    }

    /// The state after the floor is dealt: the floor is cleared to 13 empty
    /// slots, and the first four are dealt one after the other.
    pub open spec fn deal_floor(self) -> StateView {
        let cleared = StateView {
            floor: Seq::new(FLOOR_SIZE as nat, |i: int| PileView::empty()),
            ..self
        };
        cleared.deal_slot(0).deal_slot(1).deal_slot(2).deal_slot(3)
    }

    /// The state after the floor is awarded: the cards of the floor's
    /// non-empty piles, in order, make a pair without a value that goes to
    /// the pairs of the player who scored last. The floor itself stays.
    pub open spec fn pickup_floor(self) -> StateView {
        let last_pair = PileView {
            cards: all_cards(filled(self.floor)),
            value: 0,
            mark: Mark::Pair,
            owner: false,
        };
        if self.last_score {
            StateView {
                dealer: PlayerView { pairs: self.dealer.pairs.push(last_pair), ..self.dealer },
                ..self
            }
        } else {
            StateView {
                opponent: PlayerView {
                    pairs: self.opponent.pairs.push(last_pair),
                    ..self.opponent
                },
                ..self
            }
        }
    }

    /// The state after putting `p` in the place of the pile at an address,
    /// which must be empty.
    pub open spec fn replace(self, a: Address, p: PileView) -> Step {
        if self.pile(a).is_empty() {
            Step { state: self.with_pile(a, p), result: Ok(()) }
        } else {
            Step { state: self, result: Err(StateError::PileIsNotEmpty) }
        }
    }
}

impl Address {
    /// The index of the slot that an address names.
    pub open spec fn slot(self) -> int {
        match self {
            Address::Hand(i) => i as int,
            Address::Floor(j) => j as int,
        }
    }
}

/// The view of a pile that may be absent.
pub open spec fn taken_view(p: Option<Pile>) -> Option<PileView> {
    match p {
        Some(p) => Some(p@),
        None => None,
    }
}

/// Putting a pile into a slot of some piles puts its view into that slot of
/// their views.
pub proof fn lemma_views_update(piles: Seq<Pile>, i: int, p: Pile)
    requires
        0 <= i < piles.len(),
    ensures
        pile_views(piles.update(i, p)) == pile_views(piles).update(i, p@),
{
    assert(pile_views(piles.update(i, p)) =~= pile_views(piles).update(i, p@));
}

/// Adding a pile to some piles adds its view to their views.
pub proof fn lemma_views_push(piles: Seq<Pile>, p: Pile)
    ensures
        pile_views(piles.push(p)) == pile_views(piles).push(p@),
{
    assert(pile_views(piles.push(p)) =~= pile_views(piles).push(p@));
}

impl Clone for Player {
    fn clone(&self) -> (p: Player)
        ensures
            p@ == self@,
    {
        let hand = self.hand.clone();
        let pairs = self.pairs.clone();
        assert(pile_views(hand@) =~= pile_views(self.hand@));
        assert(pile_views(pairs@) =~= pile_views(self.pairs@));
        Player { hand, pairs, suipi_count: self.suipi_count }
    }
}

impl Default for Player {
    fn default() -> (p: Player)
        ensures
            p@ == PlayerView::empty(),
    {
        let p = Player { hand: Vec::new(), pairs: Vec::new(), suipi_count: 0 };
        assert(p@.hand =~= Seq::empty());
        assert(p@.pairs =~= Seq::empty());
        p
    }
}

impl Player {
    /// Get a new player from 8 piles
    pub fn new(hand: Vec<Pile>) -> (p: Player)
        ensures
            p@ == (PlayerView { hand: pile_views(hand@), pairs: Seq::empty(), suipi_count: 0 }),
    {
        let p = Player { hand, pairs: Vec::new(), suipi_count: 0 };
        assert(p@.pairs =~= Seq::empty());
        p
    }

    /// Get the number of cards in a player's hand
    pub fn card_count(&self) -> (n: usize)
        ensures
            n == count_filled(self@.hand),
            n <= self.hand.len(),
    {
        count_piles(&self.hand)
    }

    /// Get all the cards collected in pairs
    pub fn into_pair_cards(&self) -> (cards: Vec<Card>)
        ensures
            cards@ == all_cards(self@.pairs),
    {
        let ghost pairs = self@.pairs;
        let mut cards: Vec<Card> = Vec::new();
        let mut i: usize = 0;
        assert(pairs.take(0) =~= Seq::empty());
        while i < self.pairs.len()
            invariant
                pairs == pile_views(self.pairs@),
                i <= self.pairs.len(),
                cards@ == all_cards(pairs.take(i as int)),
            decreases self.pairs.len() - i,
        {
            assert(pairs.take(i as int + 1).drop_last() =~= pairs.take(i as int));
            append_cards(&mut cards, &self.pairs[i].cards);
            i += 1;
        }
        assert(pairs.take(i as int) =~= pairs);
        cards
    }
}

impl Clone for State {
    fn clone(&self) -> (s: State)
        ensures
            s@ == self@,
    {
        let deck = self.deck.clone();
        let floor = self.floor.clone();
        assert(deck@ =~= self.deck@);
        assert(pile_views(floor@) =~= pile_views(self.floor@));
        State {
            deck,
            floor,
            dealer: self.dealer.clone(),
            opponent: self.opponent.clone(),
            turn: self.turn,
            last_score: self.last_score,
        }
    }
}

impl Default for State {
    fn default() -> (s: State)
        ensures
            s@ == StateView::empty(),
    {
        let s = State {
            deck: VecDeque::new(),
            floor: Vec::new(),
            dealer: Player::default(),
            opponent: Player::default(),
            turn: false,
            last_score: false,
        };
        assert(s@.floor =~= Seq::empty());
        s
    }
}

impl State {
    /// Does the floor have 13 slots and each hand 8?
    pub fn is_seated(&self) -> (b: bool)
        ensures
            b == self@.seated(),
    {
        self.floor.len() == FLOOR_SIZE && self.dealer.hand.len() == HAND_SIZE
            && self.opponent.hand.len() == HAND_SIZE
    }

    /// Does an address name a slot that exists?
    pub fn in_range(&self, a: Address) -> (b: bool)
        ensures
            b == self@.in_range(a),
    {
        let (piles, i) = self.pile(a);
        i < piles.len()
    }

    /// Does every address of a move name a slot that exists?
    pub fn covers(&self, m: &Move) -> (b: bool)
        ensures
            b == self@.covers(m@),
    {
        let mut i: usize = 0;
        while i < m.actions.len()
            invariant
                i <= m.actions.len(),
                forall|k: int| 0 <= k < i ==> self@.in_range((#[trigger] m@[k]).address),
            decreases m.actions.len() - i,
        {
            if !self.in_range(m.actions[i].address) {
                return false;
            }
            i += 1;
        }
        true
    }

    /// Get a reference to the player for the current turn
    pub fn player(&self) -> (p: &Player)
        ensures
            p@ == self@.player(),
            *p == (if self.turn {
                self.dealer
            } else {
                self.opponent
            }),
    {
        if self.turn {
            &self.dealer
        } else {
            &self.opponent
        }
    }

    /// Get a mutable reference to the player for the current turn
    pub fn player_mut(&mut self) -> (p: &mut Player)
        ensures
            *p == (if old(self).turn {
                old(self).dealer
            } else {
                old(self).opponent
            }),
            *final(self) == (if old(self).turn {
                State { dealer: *final(p), ..*old(self) }
            } else {
                State { opponent: *final(p), ..*old(self) }
            }),
    {
        if self.turn {
            &mut self.dealer
        } else {
            &mut self.opponent
        }
    }

    /// Get the context needed to access the given address
    pub fn pile(&self, a: Address) -> (r: (&Vec<Pile>, usize))
        ensures
            pile_views(r.0@) == self@.piles(a),
            r.1 == a.slot(),
    {
        match a {
            Address::Hand(i) => (&self.player().hand, i as usize),
            Address::Floor(j) => (&self.floor, j as usize),
        }
    }

    /// Get the mutable context needed to access the given address
    pub fn pile_mut(&mut self, a: Address) -> (r: (&mut Vec<Pile>, usize))
        ensures
            pile_views(r.0@) == old(self)@.piles(a),
            r.1 == a.slot(),
            final(self)@ == old(self)@.with_piles(a, pile_views(final(r.0)@)),
    {
        match a {
            Address::Hand(i) => (&mut self.player_mut().hand, i as usize),
            Address::Floor(j) => (&mut self.floor, j as usize),
        }
    }

    /// Take the value out of a pile if it is not empty
    pub fn take(&mut self, a: Address) -> (r: Option<Pile>)
        requires
            old(self)@.in_range(a),
        ensures
            final(self)@ == old(self)@.take(a),
            taken_view(r) == (if old(self)@.pile(a).is_empty() {
                None
            } else {
                Some(old(self)@.pile(a))
            }),
    {
        let (piles, i) = self.pile_mut(a);
        if !piles[i].is_empty() {
            let ghost before = piles@;
            let p = piles[i].take();
            proof {
                lemma_views_update(before, i as int, piles@[i as int]);
                assert(piles@ =~= before.update(i as int, piles@[i as int]));
            }
            Some(p)
        } else {
            None
        }
    }

    /// Replace the value of an empty pile
    pub fn replace(&mut self, a: Address, p: Pile) -> (r: Result<(), StateError>)
        requires
            old(self)@.in_range(a),
        ensures
            final(self)@ == old(self)@.replace(a, p@).state,
            r == old(self)@.replace(a, p@).result,
    {
        let (piles, i) = self.pile_mut(a);
        if piles[i].is_empty() {
            let ghost before = piles@;
            piles[i].replace(p);
            proof {
                lemma_views_update(before, i as int, piles@[i as int]);
                assert(piles@ =~= before.update(i as int, piles@[i as int]));
            }
            Ok(())
        } else {
            Err(StateError::PileIsNotEmpty)
        }
    }

    /// Put a pile into a slot, whatever the slot holds
    fn put(&mut self, a: Address, p: Pile)
        requires
            old(self)@.in_range(a),
        ensures
            final(self)@ == old(self)@.with_pile(a, p@),
    {
        let (piles, i) = self.pile_mut(a);
        let ghost before = piles@;
        piles[i].replace(p);
        proof {
            lemma_views_update(before, i as int, piles@[i as int]);
            assert(piles@ =~= before.update(i as int, piles@[i as int]));
        }
    }

    /// Is the pile at an address empty?
    fn is_vacant(&self, a: Address) -> (b: bool)
        requires
            self@.in_range(a),
        ensures
            b == self@.pile(a).is_empty(),
    {
        let (piles, i) = self.pile(a);
        piles[i].is_empty()
    }

    /// Attempt to combine the cards from two piles
    pub fn combine(&mut self, kind: Combination, p: (Address, Address)) -> (r: Result<
        (),
        StateError,
    >)
        requires
            old(self)@.in_range(p.0),
            old(self)@.in_range(p.1),
        ensures
            final(self)@ == old(self)@.combine(kind, p.0, p.1).state,
            r == old(self)@.combine(kind, p.0, p.1).result,
    {
        if p.0 == p.1 || self.is_vacant(p.0) || self.is_vacant(p.1) {
            return Err(StateError::InvalidAddress);
        }
        let mut x = self.take(p.0).unwrap();
        let mut y = self.take(p.1).unwrap();
        let reduced = match kind {
            Combination::Build => Pile::build(&mut x, &mut y),
            Combination::Group => Pile::group(&mut x, &mut y),
            Combination::Pair => Pile::pair(&mut x, &mut y),
        };
        match reduced {
            Ok(mut z) => {
                z.owner = self.turn;
                match kind {
                    Combination::Pair => {
                        let player = self.player_mut();
                        let ghost before = player.pairs@;
                        player.pairs.push(z);
                        proof {
                            lemma_views_push(before, z);
                        }
                    },
                    _ => {
                        self.put(p.0, z);
                    },
                }
                Ok(())
            },
            Err(e) => {
                proof {
                    lemma_put_back(old(self)@, p.0, p.1);
                }
                self.put(p.0, x);
                self.put(p.1, y);
                Err(StateError::InvalidPile(e))
            },
        }
    }

    /// Build a pile from two addresses
    pub fn build(&mut self, a: Address, b: Address) -> (r: Result<(), StateError>)
        requires
            old(self)@.in_range(a),
            old(self)@.in_range(b),
        ensures
            final(self)@ == old(self)@.build(a, b).state,
            r == old(self)@.build(a, b).result,
    {
        self.combine(Combination::Build, (a, b))
    }

    /// Group two piles from two addresses
    pub fn group(&mut self, a: Address, b: Address) -> (r: Result<(), StateError>)
        requires
            old(self)@.in_range(a),
            old(self)@.in_range(b),
        ensures
            final(self)@ == old(self)@.group(a, b).state,
            r == old(self)@.group(a, b).result,
    {
        self.combine(Combination::Group, (a, b))
    }

    /// Pair a pile with a capturing card
    pub fn pair(&mut self, a: Address, b: Address) -> (r: Result<(), StateError>)
        requires
            old(self)@.in_range(a),
            old(self)@.in_range(b),
        ensures
            final(self)@ == old(self)@.pair(a, b).state,
            r == old(self)@.pair(a, b).result,
    {
        let res = self.combine(Combination::Pair, (a, b));
        if res.is_ok() {
            self.last_score = self.turn;
        }
        res
    }

    /// Count the number of stacked piles owned by the current player
    pub fn stacks(&self) -> (n: usize)
        ensures
            n == self@.stacks(),
    {
        let mut n: usize = 0;
        let mut i: usize = 0;
        let ghost floor = self@.floor;
        assert(floor.take(0) =~= Seq::empty());
        while i < self.floor.len()
            invariant
                floor == pile_views(self.floor@),
                i <= self.floor.len(),
                n == count_stacks(floor.take(i as int), self.turn),
                n <= i,
            decreases self.floor.len() - i,
        {
            assert(floor.take(i as int + 1).drop_last() =~= floor.take(i as int));
            if self.floor[i].cards.len() > 1 && self.floor[i].owner == self.turn {
                n += 1;
            }
            i += 1;
        }
        assert(floor.take(i as int) =~= floor);
        n
    }

    /// Get the number of piles on the floor
    pub fn floor_count(&self) -> (n: usize)
        ensures
            n == self@.floor_count(),
    {
        count_piles(&self.floor)
    }

    /// Check if the floor contains only unique values
    pub fn unique_floor(&self) -> (b: bool)
        ensures
            b == self@.unique_floor(),
    {
        let ghost floor = self@.floor;
        let n = self.floor.len();
        let mut j: usize = 0;
        while j < n
            invariant
                floor == pile_views(self.floor@),
                n == self.floor.len(),
                j <= n,
                forall|a: int, b: int|
                    0 <= a < b < j && !(#[trigger] floor[a]).is_empty() && !(
                    #[trigger] floor[b]).is_empty() ==> floor[a].value != floor[b].value,
            decreases n - j,
        {
            if !self.floor[j].is_empty() {
                let mut k: usize = 0;
                while k < j
                    invariant
                        floor == pile_views(self.floor@),
                        n == self.floor.len(),
                        j < n,
                        k <= j,
                        !floor[j as int].is_empty(),
                        forall|a: int|
                            0 <= a < k && !(#[trigger] floor[a]).is_empty() ==> floor[a].value
                                != floor[j as int].value,
                    decreases j - k,
                {
                    if !self.floor[k].is_empty() && self.floor[k].value == self.floor[j].value {
                        assert(!floor[k as int].is_empty() && !floor[j as int].is_empty()
                            && floor[k as int].value == floor[j as int].value);
                        return false;
                    }
                    k += 1;
                }
            }
            j += 1;
        }
        true
    }

    /// Collapse all piles to the beginning of the floor array
    pub fn collapse_floor(&mut self)
        ensures
            final(self)@ == old(self)@.collapse(),
    {
        let ghost floor = self@.floor;
        let mut kept: Vec<Pile> = Vec::new();
        let mut i: usize = 0;
        assert(floor.take(0) =~= Seq::empty());
        assert(pile_views(kept@) =~= Seq::empty());
        while i < self.floor.len()
            invariant
                i <= self.floor.len(),
                self.floor.len() == floor.len(),
                forall|k: int| i <= k < floor.len() ==> (#[trigger] self.floor@[k])@ == floor[k],
                pile_views(kept@) == filled(floor.take(i as int)),
                self.deck == old(self).deck,
                self.dealer == old(self).dealer,
                self.opponent == old(self).opponent,
                self.turn == old(self).turn,
                self.last_score == old(self).last_score,
            decreases self.floor.len() - i,
        {
            assert(floor.take(i as int + 1).drop_last() =~= floor.take(i as int));
            if !self.floor[i].is_empty() {
                let p = self.floor[i].take();
                proof {
                    lemma_views_push(kept@, p);
                }
                kept.push(p);
            }
            i += 1;
        }
        assert(floor.take(i as int) =~= floor);
        let ghost packed = pile_views(kept@);
        while kept.len() < FLOOR_SIZE
            invariant
                packed.len() <= kept.len(),
                packed.len() < FLOOR_SIZE ==> kept.len() <= FLOOR_SIZE,
                packed.len() >= FLOOR_SIZE ==> kept.len() == packed.len(),
                pile_views(kept@) == packed + Seq::new(
                    (kept.len() - packed.len()) as nat,
                    |i: int| PileView::empty(),
                ),
            decreases FLOOR_SIZE - kept.len(),
        {
            let p = Pile::empty();
            proof {
                lemma_views_push(kept@, p);
                assert(pile_views(kept@).push(p@) =~= packed + Seq::new(
                    (kept.len() + 1 - packed.len()) as nat,
                    |i: int| PileView::empty(),
                ));
            }
            kept.push(p);
        }
        assert(pile_views(kept@) =~= padded(packed));
        self.floor = kept;
    }

    /// Discard a card from your hand
    pub fn discard(&mut self, a: Address) -> (r: Result<(), StateError>)
        requires
            a is Hand ==> old(self)@.in_range(a),
        ensures
            final(self)@ == old(self)@.discard(a).state,
            r == old(self)@.discard(a).result,
    {
        if self.stacks() != 0 {
            return Err(StateError::InvalidDiscard);
        }
        if let Address::Floor(_) = a {
            return Err(StateError::InvalidAddress);
        }
        if self.is_vacant(a) {
            return Err(StateError::InvalidDiscard);
        }
        let j = self.first_empty_slot();
        if j >= self.floor.len() {
            return Err(StateError::FloorIsFull);
        }
        let pile = self.take(a).unwrap();
        let ghost cleared = self@;
        let ghost before = self.floor@;
        let hole = self.floor[j].replace(pile);
        proof {
            lemma_views_update(before, j as int, self.floor@[j as int]);
            assert(self.floor@ =~= before.update(j as int, self.floor@[j as int]));
            assert(self@ == (StateView {
                floor: cleared.floor.update(j as int, old(self)@.pile(a)),
                ..cleared
            }));
        }
        if self.unique_floor() {
            Ok(())
        } else {
            let ghost placed = self.floor@;
            let pile = self.floor[j].replace(hole);
            proof {
                lemma_views_update(placed, j as int, self.floor@[j as int]);
                assert(self.floor@ =~= placed.update(j as int, self.floor@[j as int]));
                assert(pile_views(self.floor@) =~= old(self)@.floor);
            }
            self.put(a, pile);
            proof {
                assert(self@.dealer.hand =~= old(self)@.dealer.hand);
                assert(self@.opponent.hand =~= old(self)@.opponent.hand);
            }
            Err(StateError::InvalidDiscard)
        }
    }

    /// Apply a move to the game state
    pub fn apply(&mut self, m: Move) -> (r: Result<(), StateError>)
        requires
            old(self)@.seated(),
            old(self)@.covers(m@),
        ensures
            final(self)@ == old(self)@.apply(m@).state,
            r == old(self)@.apply(m@).result,
            r is Ok ==> final(self)@.unique_floor() && final(self)@.stacks() <= 1,
            r is Ok ==> compact(final(self)@.floor),
            old(self)@.kept_in(final(self)@),
    {
        proof {
            if self@.wf() {
                lemma_apply_keeps(self@, m@);
            }
            if self@.apply(m@).result is Ok {
                lemma_apply_compacts(self@, m@);
            }
        }
        match m.is_valid() {
            Err(e) => {
                return Err(StateError::InvalidMove(e));
            },
            Ok(_) => {},
        }
        let n = m.actions.len();
        assert(n >= 1) by {
            if n == 0 {
                assert(hand_count(m@) == 0);
            }
        }
        let mut builds: Vec<Address> = Vec::new();
        let mut k: usize = 0;
        while k < n - 1
            invariant
                n == m@.len(),
                n >= 1,
                k <= n - 1,
                old(self)@.covers(m@),
                old(self)@.same_shape(self@),
                move_validity(m@) is Ok,
                old(self)@.kept_in(old(self)@.apply(m@).state),
                old(self)@.apply(m@).result is Ok ==> compact(old(self)@.apply(m@).state.floor),
                old(self)@.build_pass(m@, k as nat) == (Pass {
                    state: self@,
                    roots: builds@,
                    result: Ok(()),
                }),
                forall|j: int| 0 <= j < builds@.len() ==> old(self)@.in_range(#[trigger] builds@[j]),
            decreases n - 1 - k,
        {
            let left = m.actions[n - 2 - k];
            let right = m.actions[n - 1 - k];
            match right.operation {
                Operation::Passive => {
                    builds.push(right.address);
                },
                Operation::Active => {
                    proof {
                        lemma_combine_shape(
                            self@,
                            Combination::Build,
                            left.address,
                            right.address,
                        );
                    }
                    match self.build(left.address, right.address) {
                        Err(e) => {
                            proof {
                                lemma_build_pass_error(old(self)@, m@, (k + 1) as nat, (n - 1) as nat);
                            }
                            return Err(e);
                        },
                        Ok(_) => {},
                    }
                },
            }
            k += 1;
        }
        let destination = m.actions[0].address;
        let pair = m.actions[0].operation == Operation::Active;
        let total = builds.len();
        let ghost built = self@;
        let mut i: usize = 0;
        while i < total
            invariant
                n == m@.len(),
                n >= 1,
                total == builds@.len(),
                i <= total,
                destination == m@[0].address,
                pair == (m@[0].operation == Operation::Active),
                old(self)@.covers(m@),
                old(self)@.same_shape(self@),
                move_validity(m@) is Ok,
                old(self)@.kept_in(old(self)@.apply(m@).state),
                old(self)@.apply(m@).result is Ok ==> compact(old(self)@.apply(m@).state.floor),
                old(self)@.build_pass(m@, (n - 1) as nat) == (Pass {
                    state: built,
                    roots: builds@,
                    result: Ok(()),
                }),
                built.root_pass(destination, builds@, pair, i as nat) == (Step {
                    state: self@,
                    result: Ok(()),
                }),
                forall|j: int| 0 <= j < builds@.len() ==> old(self)@.in_range(#[trigger] builds@[j]),
            decreases total - i,
        {
            let root = builds[total - 1 - i];
            proof {
                lemma_combine_shape(self@, Combination::Group, destination, root);
                lemma_combine_shape(self@, Combination::Pair, destination, root);
            }
            let res = if i == total - 1 && pair {
                self.pair(destination, root)
            } else {
                self.group(destination, root)
            };
            match res {
                Err(e) => {
                    proof {
                        lemma_root_pass_error(
                            built,
                            destination,
                            builds@,
                            pair,
                            (i + 1) as nat,
                            total as nat,
                        );
                    }
                    return Err(e);
                },
                Ok(_) => {},
            }
            i += 1;
        }
        proof {
            lemma_filled_len(self@.floor);
        }
        let landed = self.landing(destination);
        self.collapse_floor();
        if let Address::Hand(_) = destination {
            if !pair {
                proof {
                    lemma_discard_shape(self@, destination);
                }
                match self.discard(destination) {
                    Err(e) => {
                        return Err(e);
                    },
                    Ok(_) => {},
                }
            }
        }
        self.validate_turn(landed, pair)
    }

    /// Find where a pile will lie once the floor is compacted
    fn landing(&self, a: Address) -> (r: Address)
        requires
            self@.in_range(a),
        ensures
            r == self@.landing(a),
            r is Hand <==> a is Hand,
            r.slot() <= a.slot(),
    {
        match a {
            Address::Hand(_) => a,
            Address::Floor(j) => {
                if self.floor[j as usize].is_empty() {
                    return a;
                }
                let ghost floor = self@.floor;
                let mut n: u8 = 0;
                let mut i: u8 = 0;
                assert(floor.take(0) =~= Seq::empty());
                while i < j
                    invariant
                        floor == pile_views(self.floor@),
                        j < self.floor.len(),
                        i <= j,
                        n <= i,
                        n == count_filled(floor.take(i as int)),
                    decreases j - i,
                {
                    assert(floor.take(i as int + 1).drop_last() =~= floor.take(i as int));
                    if !self.floor[i as usize].is_empty() {
                        n += 1;
                    }
                    i += 1;
                }
                Address::Floor(n)
            },
        }
    }

    /// Initialize the deck with all 52 cards
    pub fn init_deck(&mut self)
        ensures
            final(self)@ == old(self)@.init_deck(),
    {
        let mut i: u8 = 0;
        while i < 52
            invariant
                i <= 52,
                self@ == (StateView {
                    deck: old(self)@.deck + full_deck().take(i as int),
                    ..old(self)@
                }),
            decreases 52 - i,
        {
            assert(full_deck().take(i as int).push(Card::of_id(i)) =~= full_deck().take(
                i as int + 1,
            ));
            assert((old(self)@.deck + full_deck().take(i as int)).push(Card::of_id(i)) =~= old(
                self,
            )@.deck + full_deck().take(i as int + 1));
            self.deck.push_back(Card::from(i));
            i += 1;
        }
        assert(full_deck().take(52) =~= full_deck());
    }

    /// Shuffle the deck using the given RNG
    pub fn shuffle_deck(&mut self, rng: &mut Rng)
        ensures
            final(self)@ == old(self)@.shuffle_deck(old(rng)@),
            final(rng)@ == old(rng)@.after(old(self)@.deck),
            final(self)@.deck.to_multiset() == old(self)@.deck.to_multiset(),
    {
        rng.shuffle(&mut self.deck);
    }

    /// Deal a single card from the deck
    pub fn deal_pile(&mut self) -> (p: Pile)
        ensures
            p@ == dealt_pile(old(self)@.deck, 0),
            final(self)@ == old(self)@.deal_pile(),
    {
        match self.deck.pop_front() {
            None => Pile::empty(),
            Some(card) => Pile::single(card),
        }
    }

    /// Deal eight cards to each player
    pub fn deal_hands(&mut self)
        ensures
            final(self)@ == old(self)@.deal_hands(),
    {
        let ghost deck = self@.deck;
        self.opponent.hand = Vec::new();
        self.dealer.hand = Vec::new();
        let mut i: usize = 0;
        while i < HAND_SIZE
            invariant
                i <= HAND_SIZE,
                deck == old(self)@.deck,
                self.deck@ == (if deck.len() >= 2 * i {
                    deck.skip(2 * i as int)
                } else {
                    Seq::empty()
                }),
                self@.opponent.hand.len() == i,
                self@.dealer.hand.len() == i,
                forall|k: int|
                    0 <= k < i ==> (#[trigger] self@.opponent.hand[k]) == dealt_pile(deck, 2 * k),
                forall|k: int|
                    0 <= k < i ==> (#[trigger] self@.dealer.hand[k]) == dealt_pile(
                        deck,
                        2 * k + 1,
                    ),
                self@.floor == old(self)@.floor,
                self@.opponent.pairs == old(self)@.opponent.pairs,
                self@.dealer.pairs == old(self)@.dealer.pairs,
                self.opponent.suipi_count == old(self).opponent.suipi_count,
                self.dealer.suipi_count == old(self).dealer.suipi_count,
                self.turn == old(self).turn,
                self.last_score == old(self).last_score,
            decreases HAND_SIZE - i,
        {
            let a = self.deal_pile();
            let b = self.deal_pile();
            proof {
                lemma_views_push(self.opponent.hand@, a);
                lemma_views_push(self.dealer.hand@, b);
            }
            self.opponent.hand.push(a);
            self.dealer.hand.push(b);
            i += 1;
            assert(self.deck@ =~= (if deck.len() >= 2 * i {
                deck.skip(2 * i as int)
            } else {
                Seq::empty()
            }));
        }
        assert(self@.opponent.hand =~= old(self)@.deal_hands().opponent.hand);
        assert(self@.dealer.hand =~= old(self)@.deal_hands().dealer.hand);
    }

    /// Deal four unique cards to the floor
    pub fn deal_floor(&mut self)
        ensures
            final(self)@ == old(self)@.deal_floor(),
    {
        self.floor = Vec::new();
        proof {
            assert(pile_views(self.floor@) =~= Seq::empty());
            assert(filled(Seq::<PileView>::empty()) =~= Seq::empty());
        }
        self.collapse_floor();
        assert(self@.floor =~= Seq::new(FLOOR_SIZE as nat, |i: int| PileView::empty()));
        self.deal_slot(0);
        self.deal_slot(1);
        self.deal_slot(2);
        self.deal_slot(3);
    }

    /// Deal the first card of the deck that fits to a slot of the floor
    fn deal_slot(&mut self, i: usize)
        requires
            i < old(self)@.floor.len(),
        ensures
            final(self)@ == old(self)@.deal_slot(i as int),
            final(self)@.floor.len() == old(self)@.floor.len(),
    {
        let ghost deck = self@.deck;
        let ghost floor = self@.floor;
        let n = self.deck.len();
        let mut t: usize = 0;
        assert(self.deck@ =~= deck.skip(0) + deck.take(0));
        while t < n
            invariant
                t <= n,
                n == deck.len(),
                i < floor.len(),
                deck == old(self)@.deck,
                floor == old(self)@.floor,
                self.deck@ == deck.skip(t as int) + deck.take(t as int),
                pile_views(self.floor@) == floor,
                first_fit(deck, floor, i as int, 0) == first_fit(deck, floor, i as int, t as int),
                self@ == (StateView { deck: self@.deck, ..old(self)@ }),
            decreases n - t,
        {
            let card = self.deck.pop_front().unwrap();
            assert(card == deck[t as int]);
            let ghost before = self.floor@;
            let hole = self.floor[i].replace(Pile::single(card));
            proof {
                lemma_views_update(before, i as int, self.floor@[i as int]);
                assert(self.floor@ =~= before.update(i as int, self.floor@[i as int]));
            }
            if self.unique_floor() {
                proof {
                    assert(self.deck@ =~= deck.skip(t as int + 1) + deck.take(t as int));
                }
                return ;
            }
            let ghost placed = self.floor@;
            self.floor[i].replace(hole);
            proof {
                lemma_views_update(placed, i as int, self.floor@[i as int]);
                assert(self.floor@ =~= placed.update(i as int, self.floor@[i as int]));
                assert(pile_views(self.floor@) =~= floor);
            }
            self.deck.push_back(card);
            t += 1;
            assert(self.deck@ =~= deck.skip(t as int) + deck.take(t as int));
        }
        assert(self.deck@ =~= deck);
    }

    /// Award remaining floor cards to the last scorer at the end of the game
    pub fn pickup_floor(&mut self)
        ensures
            final(self)@ == old(self)@.pickup_floor(),
    {
        let ghost floor = self@.floor;
        let mut cards: Vec<Card> = Vec::new();
        let mut i: usize = 0;
        assert(floor.take(0) =~= Seq::empty());
        while i < self.floor.len()
            invariant
                floor == pile_views(self.floor@),
                i <= self.floor.len(),
                cards@ == all_cards(filled(floor.take(i as int))),
                self@ == old(self)@,
            decreases self.floor.len() - i,
        {
            assert(floor.take(i as int + 1).drop_last() =~= floor.take(i as int));
            if !self.floor[i].is_empty() {
                assert(filled(floor.take(i as int + 1)).drop_last() =~= filled(
                    floor.take(i as int),
                ));
                append_cards(&mut cards, &self.floor[i].cards);
            }
            i += 1;
        }
        assert(floor.take(i as int) =~= floor);
        let last_pair = Pile::new(cards, 0, Mark::Pair);
        if self.last_score {
            proof {
                lemma_views_push(self.dealer.pairs@, last_pair);
            }
            self.dealer.pairs.push(last_pair);
        } else {
            proof {
                lemma_views_push(self.opponent.pairs@, last_pair);
            }
            self.opponent.pairs.push(last_pair);
        }
    }

    /// Find the first empty slot of the floor, or the number of slots
    fn first_empty_slot(&self) -> (j: usize)
        ensures
            j == first_empty(self@.floor, 0),
            j <= self.floor.len(),
    {
        let ghost floor = self@.floor;
        let mut j: usize = 0;
        while j < self.floor.len() && !self.floor[j].is_empty()
            invariant
                floor == pile_views(self.floor@),
                j <= self.floor.len(),
                first_empty(floor, 0) == first_empty(floor, j as int),
            decreases self.floor.len() - j,
        {
            j += 1;
        }
        j
    }

    /// Make sure a turn results in a valid game state
    pub fn validate_turn(&self, destination: Address, pair: bool) -> (r: Result<(), StateError>)
        requires
            !pair ==> self@.in_range(destination),
        ensures
            r == self@.validate_turn(destination, pair),
    {
        if self.stacks() > 1 {
            return Err(StateError::OwnTooManyPiles);
        }
        if !pair {
            let (piles, i) = self.pile(destination);
            if !holds_value(&self.player().hand, piles[i].value) {
                return Err(StateError::UnpairablePileValue);
            }
        }
        if !self.unique_floor() {
            return Err(StateError::DuplicateFloorValue);
        }
        if pair && self.is_orphaned() {
            return Err(StateError::OrphanedPile);
        }
        Ok(())
    }

    /// Has the current player left a stack of the value captured last
    /// without a card to capture it?
    fn is_orphaned(&self) -> (b: bool)
        ensures
            b == self@.orphaned(),
    {
        let player = self.player();
        if player.pairs.len() == 0 {
            return false;
        }
        let value = player.pairs[player.pairs.len() - 1].value;
        if holds_value(&player.hand, value) {
            return false;
        }
        let ghost floor = self@.floor;
        let mut j: usize = 0;
        while j < self.floor.len()
            invariant
                floor == pile_views(self.floor@),
                j <= self.floor.len(),
                self@.player().pairs.len() > 0,
                value == self@.player().pairs.last().value,
                !has_value(self@.player().hand, value),
                forall|k: int| 0 <= k < j ==> !#[trigger] self@.orphan_at(k),
            decreases self.floor.len() - j,
        {
            if self.floor[j].cards.len() > 1 && self.floor[j].owner == self.turn
                && self.floor[j].value == value {
                assert(self@.orphan_at(j as int));
                return true;
            }
            j += 1;
        }
        false
    }
}

/// Emptying two different slots and putting their piles back gives the state
/// that one started from.
pub proof fn lemma_put_back(s: StateView, a: Address, b: Address)
    requires
        s.in_range(a),
        s.in_range(b),
        a != b,
    ensures
        s.with_pile(a, PileView::empty()).with_pile(b, PileView::empty()).with_pile(
            a,
            s.pile(a),
        ).with_pile(b, s.pile(b)) == s,
{
    let e = PileView::empty();
    let t = s.with_pile(a, e).with_pile(b, e).with_pile(a, s.pile(a)).with_pile(b, s.pile(b));
    assert(t.floor =~= s.floor);
    assert(t.dealer.hand =~= s.dealer.hand);
    assert(t.opponent.hand =~= s.opponent.hand);
}

/// Count the piles that hold a card
fn count_piles(piles: &Vec<Pile>) -> (n: usize)
    ensures
        n == count_filled(pile_views(piles@)),
        n <= piles.len(),
{
    let ghost views = pile_views(piles@);
    let mut n: usize = 0;
    let mut i: usize = 0;
    assert(views.take(0) =~= Seq::empty());
    while i < piles.len()
        invariant
            views == pile_views(piles@),
            i <= piles.len(),
            n == count_filled(views.take(i as int)),
            n <= i,
        decreases piles.len() - i,
    {
        assert(views.take(i as int + 1).drop_last() =~= views.take(i as int));
        if !piles[i].is_empty() {
            n += 1;
        }
        i += 1;
    }
    assert(views.take(i as int) =~= views);
    n
}

/// Does one of the piles have the given value?
fn holds_value(piles: &Vec<Pile>, value: u8) -> (b: bool)
    ensures
        b == has_value(pile_views(piles@), value),
{
    let ghost views = pile_views(piles@);
    let mut i: usize = 0;
    while i < piles.len()
        invariant
            views == pile_views(piles@),
            i <= piles.len(),
            forall|k: int| 0 <= k < i ==> (#[trigger] views[k]).value != value,
        decreases piles.len() - i,
    {
        if piles[i].value == value {
            assert(views[i as int].value == value);
            return true;
        }
        i += 1;
    }
    false
}

/// A combination leaves the floor and the hands at their lengths and the
/// turn as it is.
pub proof fn lemma_combine_shape(s: StateView, kind: Combination, a: Address, b: Address)
    requires
        s.in_range(a),
        s.in_range(b),
    ensures
        s.same_shape(s.combine(kind, a, b).state),
        s.same_shape(s.pair(a, b).state),
{
}

/// A discard leaves the floor and the hands at their lengths and the turn as
/// it is.
pub proof fn lemma_discard_shape(s: StateView, a: Address)
    requires
        s.in_range(a),
    ensures
        s.same_shape(s.discard(a).state),
{
    lemma_first_empty(s.floor, 0);
}

/// The first empty pile from `from` on lies at or after `from`, is empty
/// where it lies among the piles, and has no empty pile between `from` and
/// itself.
pub proof fn lemma_first_empty(piles: Seq<PileView>, from: int)
    requires
        0 <= from,
    ensures
        from <= first_empty(piles, from) || first_empty(piles, from) == piles.len(),
        0 <= first_empty(piles, from) <= piles.len() || from > piles.len(),
        first_empty(piles, from) < piles.len() ==> piles[first_empty(piles, from)].is_empty(),
        forall|k: int| from <= k < first_empty(piles, from) ==> !(#[trigger] piles[k]).is_empty(),
    decreases piles.len() - from,
{
    if from < piles.len() && !piles[from].is_empty() {
        lemma_first_empty(piles, from + 1);
    }
}

/// The first card that fits from `from` on lies at or after `from` and fits
/// where it lies in the deck.
pub proof fn lemma_first_fit(deck: Seq<Card>, floor: Seq<PileView>, i: int, from: int)
    requires
        0 <= from,
    ensures
        from <= first_fit(deck, floor, i, from) || first_fit(deck, floor, i, from) == deck.len(),
        first_fit(deck, floor, i, from) < deck.len() ==> fits(
            floor,
            i,
            deck[first_fit(deck, floor, i, from)],
        ),
    decreases deck.len() - from,
{
    if from < deck.len() && !fits(floor, i, deck[from]) {
        lemma_first_fit(deck, floor, i, from + 1);
    }
}

/// The non-empty piles are no more than the piles.
pub proof fn lemma_filled_len(piles: Seq<PileView>)
    ensures
        filled(piles).len() <= piles.len(),
        padded(filled(piles)).len() >= FLOOR_SIZE,
        piles.len() <= FLOOR_SIZE ==> padded(filled(piles)).len() == FLOOR_SIZE,
    decreases piles.len(),
{
    if piles.len() > 0 {
        lemma_filled_len(piles.drop_last());
    }
}

/// Once the first pass has failed, it stays as it is.
pub proof fn lemma_build_pass_error(s: StateView, actions: Seq<Action>, k: nat, n: nat)
    requires
        k <= n,
        s.build_pass(actions, k).result is Err,
    ensures
        s.build_pass(actions, n) == s.build_pass(actions, k),
    decreases n - k,
{
    if k < n {
        lemma_build_pass_error(s, actions, k, (n - 1) as nat);
    }
}

/// Once the second pass has failed, it stays as it is.
pub proof fn lemma_root_pass_error(
    s: StateView,
    destination: Address,
    roots: Seq<Address>,
    pair: bool,
    k: nat,
    n: nat,
)
    requires
        k <= n,
        s.root_pass(destination, roots, pair, k).result is Err,
    ensures
        s.root_pass(destination, roots, pair, n) == s.root_pass(destination, roots, pair, k),
    decreases n - k,
{
    if k < n {
        lemma_root_pass_error(s, destination, roots, pair, k, (n - 1) as nat);
    }
}

/// Add copies of some cards to the end of others
fn append_cards(cards: &mut Vec<Card>, more: &Vec<Card>)
    ensures
        final(cards)@ == old(cards)@ + more@,
{
    let mut i: usize = 0;
    assert(more@.take(0) =~= Seq::empty());
    assert(cards@ =~= old(cards)@ + more@.take(0));
    while i < more.len()
        invariant
            i <= more.len(),
            cards@ == old(cards)@ + more@.take(i as int),
        decreases more.len() - i,
    {
        assert((old(cards)@ + more@.take(i as int)).push(more@[i as int]) =~= old(cards)@
            + more@.take(i as int + 1));
        cards.push(more[i]);
        i += 1;
    }
    assert(more@.take(i as int) =~= more@);
}

} // verus!
