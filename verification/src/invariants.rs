//! What every step of a turn keeps: valid cards in well-formed piles, the
//! lengths of the floor and of the hands, and the number of cards in play.

use crate::action::{hand_count, move_validity, Action, Address, Operation};
use crate::pile::{all_valid, lemma_build_wf, lemma_group_wf, Mark, PileView};
use crate::card::{lemma_id_round_trip, Card};
use crate::state::{
    compact, count_cards, count_filled, dealt_pile, filled, first_empty, first_fit, flat,
    full_deck,
    lemma_build_pass_error, lemma_filled_len, lemma_first_empty, lemma_first_fit, padded,
    piles_in_play, unique_values,
    Combination, StateView, FLOOR_SIZE, HAND_SIZE,
};
use vstd::prelude::*;

verus! {

/// Putting a pile into a slot changes the number of cards by what the pile
/// holds more than the pile that was there.
pub proof fn lemma_count_cards_update(piles: Seq<PileView>, i: int, p: PileView)
    requires
        0 <= i < piles.len(),
    ensures
        count_cards(piles.update(i, p)) == count_cards(piles) - piles[i].cards.len()
            + p.cards.len(),
    decreases piles.len(),
{
    if i == piles.len() - 1 {
        assert(piles.update(i, p).drop_last() =~= piles.drop_last());
    } else {
        assert(piles.update(i, p).drop_last() =~= piles.drop_last().update(i, p));
        lemma_count_cards_update(piles.drop_last(), i, p);
    }
}

/// Adding a pile adds its cards.
pub proof fn lemma_count_cards_push(piles: Seq<PileView>, p: PileView)
    ensures
        count_cards(piles.push(p)) == count_cards(piles) + p.cards.len(),
{
    assert(piles.push(p).drop_last() =~= piles);
}

/// Piles without cards, added behind others, add no cards.
pub proof fn lemma_count_cards_padding(piles: Seq<PileView>, n: nat)
    ensures
        count_cards(piles + Seq::new(n, |i: int| PileView::empty())) == count_cards(piles),
    decreases n,
{
    let padding = Seq::new(n, |i: int| PileView::empty());
    if n == 0 {
        assert(piles + padding =~= piles);
    } else {
        let less = Seq::new((n - 1) as nat, |i: int| PileView::empty());
        assert((piles + padding).drop_last() =~= piles + less);
        lemma_count_cards_padding(piles, (n - 1) as nat);
    }
}

/// Leaving out the empty piles of well-formed piles leaves out no card and
/// keeps the piles well formed.
pub proof fn lemma_filled_keeps(piles: Seq<PileView>)
    requires
        piles_in_play(piles),
    ensures
        count_cards(filled(piles)) == count_cards(piles),
        piles_in_play(filled(piles)),
    decreases piles.len(),
{
    if piles.len() > 0 {
        let rest = piles.drop_last();
        assert(forall|i: int| 0 <= i < rest.len() ==> rest[i] == piles[i]);
        lemma_filled_keeps(rest);
        assert(piles.last().wf());
        if !piles.last().is_empty() {
            lemma_count_cards_push(filled(rest), piles.last());
        }
    }
}

/// Putting a pile at an address changes the number of cards by what the
/// pile holds more than the pile that was there, and keeps the shape.
pub proof fn lemma_with_pile_keeps(s: StateView, a: Address, p: PileView)
    requires
        s.in_range(a),
    ensures
        s.with_pile(a, p).card_total() == s.card_total() - s.pile(a).cards.len() + p.cards.len(),
        s.same_shape(s.with_pile(a, p)),
        s.wf() && p.wf() && !(p.mark is Pair) ==> s.with_pile(a, p).wf(),
        s.with_pile(a, p).pile(a) == p,
        s.with_pile(a, p).deck == s.deck,
{
    lemma_count_cards_update(s.piles(a), a.slot(), p);
}

/// Putting a pile at an address leaves the piles at other addresses alone.
pub proof fn lemma_with_pile_elsewhere(s: StateView, a: Address, p: PileView, b: Address)
    requires
        s.in_range(a),
        s.in_range(b),
        a != b,
    ensures
        s.with_pile(a, p).pile(b) == s.pile(b),
{
}

/// A capture adds the cards of the captured pile and keeps the shape and the
/// piles in play.
pub proof fn lemma_captured_keeps(s: StateView, z: PileView)
    ensures
        s.captured(z).card_total() == s.card_total() + z.cards.len(),
        s.same_shape(s.captured(z)),
        s.wf() ==> s.captured(z).wf(),
        s.captured(z).floor == s.floor,
{
    lemma_count_cards_push(s.player().pairs, z);
}

/// A combination, whether it succeeds or fails, keeps the piles well formed,
/// the shape of the state and the number of cards.
pub proof fn lemma_combine_keeps(s: StateView, kind: Combination, a: Address, b: Address)
    requires
        s.wf(),
        s.in_range(a),
        s.in_range(b),
    ensures
        s.combine(kind, a, b).state.wf(),
        s.same_shape(s.combine(kind, a, b).state),
        s.combine(kind, a, b).state.card_total() == s.card_total(),
{
    let x = s.pile(a);
    let y = s.pile(b);
    if !(a == b || x.is_empty() || y.is_empty()) {
        match kind.reduce(x, y) {
            Err(e) => {},
            Ok(z) => {
                let e = PileView::empty();
                let s1 = s.with_pile(a, e);
                let s2 = s1.with_pile(b, e);
                let z1 = z.owned_by(s.turn);
                lemma_with_pile_keeps(s, a, e);
                lemma_with_pile_keeps(s1, b, e);
                lemma_with_pile_elsewhere(s, a, e, b);
                assert(s1.pile(b) == y);
                assert(s2.pile(a) == e) by {
                    lemma_with_pile_elsewhere(s1, b, e, a);
                }
                assert(z.cards == x.cards + y.cards);
                assert(x.wf() && y.wf()) by {
                    assert(piles_in_play(s.piles(a)));
                    assert(piles_in_play(s.piles(b)));
                }
                match kind {
                    Combination::Build => {
                        lemma_build_wf(x, y);
                        lemma_with_pile_keeps(s2, a, z1);
                    },
                    Combination::Group => {
                        lemma_group_wf(x, y);
                        lemma_with_pile_keeps(s2, a, z1);
                    },
                    Combination::Pair => {
                        lemma_captured_keeps(s2, z1);
                    },
                }
            },
        }
    }
}

/// A pair, whether it succeeds or fails, keeps the piles well formed, the
/// shape of the state and the number of cards.
pub proof fn lemma_pair_keeps(s: StateView, a: Address, b: Address)
    requires
        s.wf(),
        s.in_range(a),
        s.in_range(b),
    ensures
        s.pair(a, b).state.wf(),
        s.same_shape(s.pair(a, b).state),
        s.pair(a, b).state.card_total() == s.card_total(),
{
    lemma_combine_keeps(s, Combination::Pair, a, b);
}

/// Compacting the floor keeps the piles well formed and the number of cards,
/// and leaves a floor of 13 slots where it had no more before.
pub proof fn lemma_collapse_keeps(s: StateView)
    requires
        s.wf(),
    ensures
        s.collapse().wf(),
        s.collapse().card_total() == s.card_total(),
        s.floor.len() <= FLOOR_SIZE ==> s.collapse().floor.len() == FLOOR_SIZE,
        s.collapse().dealer == s.dealer,
        s.collapse().opponent == s.opponent,
        s.collapse().turn == s.turn,
{
    lemma_filled_keeps(s.floor);
    lemma_filled_len(s.floor);
    let kept = filled(s.floor);
    if kept.len() < FLOOR_SIZE {
        lemma_count_cards_padding(kept, (FLOOR_SIZE - kept.len()) as nat);
    }
}

/// A discard, whether it succeeds or fails, keeps the piles well formed, the
/// shape of the state and the number of cards.
pub proof fn lemma_discard_keeps(s: StateView, a: Address)
    requires
        s.wf(),
        s.in_range(a),
    ensures
        s.discard(a).state.wf(),
        s.same_shape(s.discard(a).state),
        s.discard(a).state.card_total() == s.card_total(),
{
    lemma_first_empty(s.floor, 0);
    let j = first_empty(s.floor, 0);
    if s.discard(a).result is Ok {
        let e = PileView::empty();
        let cleared = s.with_pile(a, e);
        lemma_with_pile_keeps(s, a, e);
        assert(s.pile(a).wf() && !(s.pile(a).mark is Pair)) by {
            assert(piles_in_play(s.piles(a)));
        }
        assert(s.floor[j].wf());
        assert(cleared.floor == s.floor);
        lemma_count_cards_update(cleared.floor, j, s.pile(a));
    }
}

/// The first pass over a move keeps the piles well formed, the shape of the
/// state and the number of cards, and sets aside addresses of the move only.
pub proof fn lemma_build_pass_keeps(s: StateView, actions: Seq<Action>, k: nat)
    requires
        s.wf(),
        s.covers(actions),
        k < actions.len(),
    ensures
        s.build_pass(actions, k).state.wf(),
        s.same_shape(s.build_pass(actions, k).state),
        s.build_pass(actions, k).state.card_total() == s.card_total(),
        s.build_pass(actions, k).roots.len() <= k,
        forall|j: int|
            0 <= j < s.build_pass(actions, k).roots.len() ==> s.in_range(
                #[trigger] s.build_pass(actions, k).roots[j],
            ),
    decreases k,
{
    if k > 0 {
        lemma_build_pass_keeps(s, actions, (k - 1) as nat);
        let prev = s.build_pass(actions, (k - 1) as nat);
        let left = actions[actions.len() - 1 - k];
        let right = actions[actions.len() - k];
        assert(s.in_range(left.address));
        assert(s.in_range(right.address));
        if prev.result is Ok && right.operation != Operation::Passive {
            lemma_combine_keeps(prev.state, Combination::Build, left.address, right.address);
        }
    }
}

/// The second pass over a move keeps the piles well formed, the shape of the
/// state and the number of cards.
pub proof fn lemma_root_pass_keeps(
    s: StateView,
    destination: Address,
    roots: Seq<Address>,
    pair: bool,
    k: nat,
)
    requires
        s.wf(),
        s.in_range(destination),
        forall|j: int| 0 <= j < roots.len() ==> s.in_range(#[trigger] roots[j]),
        k <= roots.len(),
    ensures
        s.root_pass(destination, roots, pair, k).state.wf(),
        s.same_shape(s.root_pass(destination, roots, pair, k).state),
        s.root_pass(destination, roots, pair, k).state.card_total() == s.card_total(),
    decreases k,
{
    if k > 0 {
        lemma_root_pass_keeps(s, destination, roots, pair, (k - 1) as nat);
        let prev = s.root_pass(destination, roots, pair, (k - 1) as nat);
        let root = roots[roots.len() - k];
        assert(s.in_range(root));
        if prev.result is Ok {
            lemma_combine_keeps(prev.state, Combination::Group, destination, root);
            lemma_pair_keeps(prev.state, destination, root);
        }
    }
}

/// A move, whether it succeeds or fails, keeps the cards valid and the piles
/// well formed, leaves the floor at 13 slots and the hands at 8, leaves the
/// turn with the same player, and neither adds a card to the game nor takes
/// one from it.
pub proof fn lemma_apply_keeps(s: StateView, actions: Seq<Action>)
    requires
        s.wf(),
        s.seated(),
        s.covers(actions),
    ensures
        s.apply(actions).state.wf(),
        s.apply(actions).state.seated(),
        s.apply(actions).state.turn == s.turn,
        s.apply(actions).state.card_total() == s.card_total(),
        s.apply(actions).state.deck == s.deck,
{
    if move_validity(actions) is Ok {
        assert(actions.len() >= 1) by {
            if actions.len() == 0 {
                assert(hand_count(actions) == 0);
            }
        }
        let destination = actions[0].address;
        let pair = actions[0].operation == Operation::Active;
        lemma_build_pass_keeps(s, actions, (actions.len() - 1) as nat);
        lemma_build_pass_deck(s, actions, (actions.len() - 1) as nat);
        let built = s.build_pass(actions, (actions.len() - 1) as nat);
        assert(s.in_range(destination));
        lemma_root_pass_keeps(built.state, destination, built.roots, pair, built.roots.len());
        lemma_root_pass_deck(built.state, destination, built.roots, pair, built.roots.len());
        let rooted = built.state.root_pass(destination, built.roots, pair, built.roots.len());
        lemma_collapse_keeps(rooted.state);
        let collapsed = rooted.state.collapse();
        if destination is Hand && !pair {
            lemma_discard_keeps(collapsed, destination);
        }
    }
}

/// The first pass over a move leaves the deck alone.
pub proof fn lemma_build_pass_deck(s: StateView, actions: Seq<Action>, k: nat)
    ensures
        s.build_pass(actions, k).state.deck == s.deck,
    decreases k,
{
    if k > 0 {
        lemma_build_pass_deck(s, actions, (k - 1) as nat);
    }
}

/// The second pass over a move leaves the deck alone.
pub proof fn lemma_root_pass_deck(
    s: StateView,
    destination: Address,
    roots: Seq<Address>,
    pair: bool,
    k: nat,
)
    ensures
        s.root_pass(destination, roots, pair, k).state.deck == s.deck,
    decreases k,
{
    if k > 0 {
        lemma_root_pass_deck(s, destination, roots, pair, (k - 1) as nat);
    }
}

/// After a move that succeeds no two non-empty floor piles have the same
/// value, and the player who moved owns at most one stack.
pub proof fn lemma_apply_unique_floor(s: StateView, actions: Seq<Action>)
    requires
        s.apply(actions).result is Ok,
    ensures
        s.apply(actions).state.unique_floor(),
        s.apply(actions).state.stacks() <= 1,
{
}

/// Dealing a slot of a floor with unique values leaves a floor with unique
/// values.
pub proof fn lemma_deal_slot_unique(s: StateView, i: int)
    requires
        unique_values(s.floor),
    ensures
        unique_values(s.deal_slot(i).floor),
{
    lemma_first_fit(s.deck, s.floor, i, 0);
}

/// After the floor is dealt no two non-empty floor piles have the same value.
pub proof fn lemma_deal_floor_unique(s: StateView)
    ensures
        s.deal_floor().unique_floor(),
{
    let cleared = StateView {
        floor: Seq::new(FLOOR_SIZE as nat, |i: int| PileView::empty()),
        ..s
    };
    lemma_deal_slot_unique(cleared, 0);
    lemma_deal_slot_unique(cleared.deal_slot(0), 1);
    lemma_deal_slot_unique(cleared.deal_slot(0).deal_slot(1), 2);
    lemma_deal_slot_unique(cleared.deal_slot(0).deal_slot(1).deal_slot(2), 3);
}

/// The full deck holds 52 cards, all valid.
pub proof fn lemma_full_deck()
    ensures
        full_deck().len() == 52,
        all_valid(full_deck()),
{
    assert forall|i: int| 0 <= i < full_deck().len() implies (#[trigger] full_deck()[i]).is_valid() by {
        lemma_id_round_trip(i as u8);
    }
}

/// A deck that holds the cards of another in some order holds as many, and
/// valid cards where the other does.
pub proof fn lemma_shuffle_keeps(deck: Seq<Card>, cards: Seq<Card>)
    requires
        deck.to_multiset() == cards.to_multiset(),
    ensures
        deck.len() == cards.len(),
        all_valid(cards) ==> all_valid(deck),
{
    deck.to_multiset_ensures();
    cards.to_multiset_ensures();
    if all_valid(cards) {
        assert forall|i: int| 0 <= i < deck.len() implies (#[trigger] deck[i]).is_valid() by {
            assert(deck.contains(deck[i]));
            assert(deck.to_multiset().count(deck[i]) > 0);
            assert(cards.to_multiset().count(deck[i]) > 0);
            assert(cards.contains(deck[i]));
            let k = choose|k: int| 0 <= k < cards.len() && cards[k] == deck[i];
            assert(cards[k].is_valid());
        }
    }
}

/// Well-formed piles of which none holds a card hold no cards.
pub proof fn lemma_empty_piles(piles: Seq<PileView>)
    requires
        piles_in_play(piles),
        count_filled(piles) == 0,
    ensures
        count_cards(piles) == 0,
    decreases piles.len(),
{
    if piles.len() > 0 {
        let rest = piles.drop_last();
        assert(forall|i: int| 0 <= i < rest.len() ==> rest[i] == piles[i]);
        assert(piles.last().wf());
        lemma_empty_piles(rest);
    }
}

/// The number of cards that a hand is dealt from a deck, the hand taking
/// every second card from position `first` on: as many as the deck has for
/// it, and one for each slot at most.
pub open spec fn dealt_count(deck: Seq<Card>, first: int, slots: int) -> int {
    if deck.len() <= first {
        0
    } else if slots <= (deck.len() - first + 1) / 2 {
        slots
    } else {
        (deck.len() - first + 1) / 2
    }
}

/// A hand dealt from a deck of valid cards holds well-formed piles, and as
/// many cards as the deck has for it.
pub proof fn lemma_dealt_hand(deck: Seq<Card>, first: int, hand: Seq<PileView>)
    requires
        all_valid(deck),
        0 <= first <= 1,
        forall|i: int| 0 <= i < hand.len() ==> #[trigger] hand[i] == dealt_pile(deck, 2 * i + first),
    ensures
        piles_in_play(hand),
        flat(hand),
        count_cards(hand) == dealt_count(deck, first, hand.len() as int),
    decreases hand.len(),
{
    if hand.len() > 0 {
        let rest = hand.drop_last();
        assert(forall|i: int| 0 <= i < rest.len() ==> rest[i] == hand[i]);
        lemma_dealt_hand(deck, first, rest);
        let k = 2 * (hand.len() - 1) + first;
        assert(hand.last() == dealt_pile(deck, k));
        assert forall|i: int| 0 <= i < hand.len() implies (#[trigger] hand[i]).wf() && hand[i].mark
            != Mark::Pair by {
            let j = 2 * i + first;
            if 0 <= j < deck.len() {
                assert(deck[j].is_valid());
            }
        }
    }
}

/// Dealing the hands from a deck of valid cards moves cards from the deck to
/// the hands, puts well-formed piles into 8 slots each, and leaves the rest
/// as it is.
pub proof fn lemma_deal_hands_keeps(s: StateView)
    requires
        all_valid(s.deck),
    ensures
        all_valid(s.deal_hands().deck),
        piles_in_play(s.deal_hands().dealer.hand),
        piles_in_play(s.deal_hands().opponent.hand),
        s.deal_hands().hands_flat(),
        s.deal_hands().dealer.hand.len() == HAND_SIZE,
        s.deal_hands().opponent.hand.len() == HAND_SIZE,
        s.deal_hands().deck.len() + count_cards(s.deal_hands().dealer.hand) + count_cards(
            s.deal_hands().opponent.hand,
        ) == s.deck.len(),
        s.deal_hands().floor == s.floor,
        s.deal_hands().dealer.pairs == s.dealer.pairs,
        s.deal_hands().opponent.pairs == s.opponent.pairs,
{
    let t = s.deal_hands();
    lemma_dealt_hand(s.deck, 0, t.opponent.hand);
    lemma_dealt_hand(s.deck, 1, t.dealer.hand);
}

/// Dealing an empty slot of the floor keeps the piles well formed and the
/// number of cards, and changes no other slot.
pub proof fn lemma_deal_slot_keeps(s: StateView, i: int)
    requires
        s.wf(),
        0 <= i < s.floor.len(),
        s.floor[i].cards.len() == 0,
    ensures
        s.deal_slot(i).wf(),
        s.deal_slot(i).card_total() == s.card_total(),
        s.deal_slot(i).floor.len() == s.floor.len(),
        flat(s.floor) ==> flat(s.deal_slot(i).floor),
        forall|j: int| 0 <= j < s.floor.len() && j != i ==> s.deal_slot(i).floor[j] == s.floor[j],
        s.deal_slot(i).dealer == s.dealer,
        s.deal_slot(i).opponent == s.opponent,
{
    lemma_first_fit(s.deck, s.floor, i, 0);
    let k = first_fit(s.deck, s.floor, i, 0);
    if k < s.deck.len() {
        assert(s.deck[k].is_valid());
        lemma_count_cards_update(s.floor, i, PileView::single(s.deck[k]));
        let t = s.deal_slot(i);
        assert forall|j: int| 0 <= j < t.deck.len() implies (#[trigger] t.deck[j]).is_valid() by {
            if j < s.deck.len() - k - 1 {
                assert(t.deck[j] == s.deck[j + k + 1]);
            } else {
                assert(t.deck[j] == s.deck[j - (s.deck.len() - k - 1)]);
            }
        }
    }
}

/// Dealing the floor from a deck of valid cards moves cards from the deck to
/// a floor of 13 slots, and drops what the floor held before.
pub proof fn lemma_deal_floor_keeps(s: StateView)
    requires
        all_valid(s.deck),
        piles_in_play(s.dealer.hand),
        piles_in_play(s.opponent.hand),
    ensures
        s.deal_floor().wf(),
        s.deal_floor().floor.len() == FLOOR_SIZE,
        flat(s.deal_floor().floor),
        s.deal_floor().card_total() + count_cards(s.floor) == s.card_total(),
        s.deal_floor().dealer == s.dealer,
        s.deal_floor().opponent == s.opponent,
{
    let blank = Seq::new(FLOOR_SIZE as nat, |i: int| PileView::empty());
    let cleared = StateView { floor: blank, ..s };
    lemma_count_cards_padding(Seq::empty(), FLOOR_SIZE as nat);
    assert(Seq::<PileView>::empty() + blank =~= blank);
    assert(count_cards(Seq::<PileView>::empty()) == 0);
    let s0 = cleared.deal_slot(0);
    lemma_deal_slot_keeps(cleared, 0);
    let s1 = s0.deal_slot(1);
    lemma_deal_slot_keeps(s0, 1);
    let s2 = s1.deal_slot(2);
    lemma_deal_slot_keeps(s1, 2);
    lemma_deal_slot_keeps(s2, 3);
}

/// The non-empty piles are as many as are counted, and a non-empty pile has
/// fewer of them before it than there are.
pub proof fn lemma_filled_count(piles: Seq<PileView>, j: int)
    requires
        0 <= j < piles.len(),
        !piles[j].is_empty(),
    ensures
        filled(piles).len() == count_filled(piles),
        filled(piles.take(j)).len() == count_filled(piles.take(j)),
        count_filled(piles.take(j)) < count_filled(piles),
        count_filled(piles.take(j)) <= j,
    decreases piles.len(),
{
    let rest = piles.drop_last();
    if j < piles.len() - 1 {
        lemma_filled_count(rest, j);
        assert(rest.take(j) =~= piles.take(j));
    } else {
        assert(piles.take(j) =~= rest);
        lemma_filled_total(rest);
    }
}

/// The non-empty piles are as many as are counted, and no more than the
/// piles.
pub proof fn lemma_filled_total(piles: Seq<PileView>)
    ensures
        filled(piles).len() == count_filled(piles),
        count_filled(piles) <= piles.len(),
    decreases piles.len(),
{
    if piles.len() > 0 {
        lemma_filled_total(piles.drop_last());
    }
}

/// A non-empty floor pile lies, once the floor is compacted, in the slot
/// that counts the non-empty piles before it.
pub proof fn lemma_landing(piles: Seq<PileView>, j: int)
    requires
        0 <= j < piles.len(),
        !piles[j].is_empty(),
    ensures
        count_filled(piles.take(j)) < padded(filled(piles)).len(),
        padded(filled(piles))[count_filled(piles.take(j)) as int] == piles[j],
    decreases piles.len(),
{
    lemma_filled_count(piles, j);
    let rest = piles.drop_last();
    if j < piles.len() - 1 {
        lemma_landing(rest, j);
        lemma_filled_count(rest, j);
        assert(rest.take(j) =~= piles.take(j));
        lemma_filled_total(rest);
    } else {
        assert(piles.take(j) =~= rest);
        lemma_filled_total(rest);
    }
}

/// After the floor is compacted, the pile that was at a floor address lies
/// at the landing of that address.
pub proof fn lemma_collapse_landing(s: StateView, a: Address)
    requires
        a is Floor,
        s.in_range(a),
        !s.pile(a).is_empty(),
        s.floor.len() <= 256,
    ensures
        s.collapse().in_range(s.landing(a)),
        s.collapse().pile(s.landing(a)) == s.pile(a),
{
    lemma_landing(s.floor, a.slot());
    lemma_filled_count(s.floor, a.slot());
}

/// A step that fails changes nothing: a combination, a pair, a discard or a
/// replacement that returns an error leaves the state as it was.
pub proof fn lemma_failed_step_keeps_state(
    s: StateView,
    kind: Combination,
    a: Address,
    b: Address,
    p: PileView,
)
    ensures
        s.combine(kind, a, b).result is Err ==> s.combine(kind, a, b).state == s,
        s.pair(a, b).result is Err ==> s.pair(a, b).state == s,
        s.discard(a).result is Err ==> s.discard(a).state == s,
        s.replace(a, p).result is Err ==> s.replace(a, p).state == s,
{
}

/// A move whose shape is invalid, or whose first step fails, changes
/// nothing.
pub proof fn lemma_rejected_move_keeps_state(s: StateView, actions: Seq<Action>)
    requires
        move_validity(actions) is Err || (actions.len() >= 2 && s.build_pass(
            actions,
            1,
        ).result is Err),
    ensures
        s.apply(actions).result is Err,
        s.apply(actions).state == s,
{
    if move_validity(actions) is Ok {
        assert(s.build_pass(actions, 0).state == s);
        lemma_build_pass_error(s, actions, 1, (actions.len() - 1) as nat);
    }
}

/// What is left of piles without the empty ones holds no empty pile.
pub proof fn lemma_filled_holds_no_gap(piles: Seq<PileView>)
    ensures
        forall|i: int| 0 <= i < filled(piles).len() ==> !(#[trigger] filled(piles)[i]).is_empty(),
    decreases piles.len(),
{
    if piles.len() > 0 {
        let rest = filled(piles.drop_last());
        lemma_filled_holds_no_gap(piles.drop_last());
        assert forall|i: int| 0 <= i < filled(piles).len() implies !(
        #[trigger] filled(piles)[i]).is_empty() by {
            if i < rest.len() {
                assert(filled(piles)[i] == rest[i]);
            }
        }
    }
}

/// After a move that succeeds the floor is compact: its non-empty piles
/// come before its empty slots.
pub proof fn lemma_apply_compacts(s: StateView, actions: Seq<Action>)
    requires
        s.apply(actions).result is Ok,
    ensures
        compact(s.apply(actions).state.floor),
{
    let destination = actions[0].address;
    let pair = actions[0].operation == Operation::Active;
    let built = s.build_pass(actions, (actions.len() - 1) as nat);
    let rooted = built.state.root_pass(destination, built.roots, pair, built.roots.len());
    lemma_filled_holds_no_gap(rooted.state.floor);
    let collapsed = rooted.state.collapse();
    assert(compact(collapsed.floor));
    if destination is Hand && !pair {
        lemma_first_empty(collapsed.floor, 0);
    }
}

} // verus!
