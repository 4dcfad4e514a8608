//! Who owns what: each player owns one stack on the floor at most, and the
//! hands hold single cards.

use crate::action::{hand_count, move_validity, Action, Address, Operation};
use crate::invariants::{
    lemma_build_pass_keeps, lemma_collapse_keeps, lemma_root_pass_keeps,
};
use crate::pile::PileView;
use crate::state::{
    count_stacks, filled, first_empty, flat, lemma_first_empty, padded, piles_in_play,
    Combination, StateView, FLOOR_SIZE,
};
use vstd::prelude::*;

verus! {

/// Putting a pile into a slot changes the number of stacks of a player by
/// one for a stack of that player that comes and by one for one that goes.
pub proof fn lemma_count_stacks_update(piles: Seq<PileView>, i: int, p: PileView, owner: bool)
    requires
        0 <= i < piles.len(),
    ensures
        count_stacks(piles.update(i, p), owner) == count_stacks(piles, owner) - (if piles[i].is_stack_of(
            owner,
        ) {
            1int
        } else {
            0int
        }) + (if p.is_stack_of(owner) {
            1int
        } else {
            0int
        }),
    decreases piles.len(),
{
    if i == piles.len() - 1 {
        assert(piles.update(i, p).drop_last() =~= piles.drop_last());
    } else {
        assert(piles.update(i, p).drop_last() =~= piles.drop_last().update(i, p));
        lemma_count_stacks_update(piles.drop_last(), i, p, owner);
    }
}

/// Piles of one card at most hold no stack.
pub proof fn lemma_flat_has_no_stacks(piles: Seq<PileView>, owner: bool)
    requires
        flat(piles),
    ensures
        count_stacks(piles, owner) == 0,
    decreases piles.len(),
{
    if piles.len() > 0 {
        let rest = piles.drop_last();
        assert(forall|i: int| 0 <= i < rest.len() ==> rest[i] == piles[i]);
        assert(piles.last().cards.len() <= 1);
        lemma_flat_has_no_stacks(rest, owner);
    }
}

/// Compacting well-formed piles neither adds a stack nor takes one away.
pub proof fn lemma_count_stacks_compacted(piles: Seq<PileView>, owner: bool)
    requires
        piles_in_play(piles),
    ensures
        count_stacks(filled(piles), owner) == count_stacks(piles, owner),
        count_stacks(padded(filled(piles)), owner) == count_stacks(piles, owner),
    decreases piles.len(),
{
    if piles.len() > 0 {
        let rest = piles.drop_last();
        assert(forall|i: int| 0 <= i < rest.len() ==> rest[i] == piles[i]);
        assert(piles.last().wf());
        lemma_count_stacks_compacted(rest, owner);
        if !piles.last().is_empty() {
            assert(filled(rest).push(piles.last()).drop_last() =~= filled(rest));
        }
    }
    let kept = filled(piles);
    if kept.len() < FLOOR_SIZE {
        lemma_count_stacks_padding(kept, (FLOOR_SIZE - kept.len()) as nat, owner);
    }
}

/// Empty piles, added behind others, add no stack.
pub proof fn lemma_count_stacks_padding(piles: Seq<PileView>, n: nat, owner: bool)
    ensures
        count_stacks(piles + Seq::new(n, |i: int| PileView::empty()), owner) == count_stacks(
            piles,
            owner,
        ),
    decreases n,
{
    let padding = Seq::new(n, |i: int| PileView::empty());
    if n == 0 {
        assert(piles + padding =~= piles);
    } else {
        let less = Seq::new((n - 1) as nat, |i: int| PileView::empty());
        assert((piles + padding).drop_last() =~= piles + less);
        lemma_count_stacks_padding(piles, (n - 1) as nat, owner);
    }
}

/// In a move of a valid shape with one hand address, the last, every other
/// address is on the floor.
pub proof fn lemma_hand_comes_last(actions: Seq<Action>)
    requires
        move_validity(actions) is Ok,
    ensures
        actions.len() >= 1,
        actions.last().address is Hand,
        forall|i: int| 0 <= i < actions.len() - 1 ==> (#[trigger] actions[i]).address is Floor,
{
    if actions.len() == 0 {
        assert(hand_count(actions) == 0);
    } else {
        lemma_hand_count_zero(actions.drop_last());
        assert(forall|i: int|
            0 <= i < actions.len() - 1 ==> actions[i] == actions.drop_last()[i]);
    }
}

/// Actions without a hand address are all on the floor.
pub proof fn lemma_hand_count_zero(actions: Seq<Action>)
    ensures
        hand_count(actions) == 0 ==> forall|i: int|
            0 <= i < actions.len() ==> (#[trigger] actions[i]).address is Floor,
    decreases actions.len(),
{
    if actions.len() > 0 {
        lemma_hand_count_zero(actions.drop_last());
        assert(forall|i: int|
            0 <= i < actions.len() - 1 ==> actions[i] == actions.drop_last()[i]);
    }
}

/// A combination into a floor pile gives the other player no stack, and
/// leaves the hands with single cards.
pub proof fn lemma_combine_ownership(s: StateView, kind: Combination, a: Address, b: Address)
    requires
        a is Floor,
        s.in_range(a),
        s.in_range(b),
    ensures
        count_stacks(s.combine(kind, a, b).state.floor, !s.turn) <= count_stacks(
            s.floor,
            !s.turn,
        ),
        s.hands_flat() ==> s.combine(kind, a, b).state.hands_flat(),
        count_stacks(s.pair(a, b).state.floor, !s.turn) <= count_stacks(s.floor, !s.turn),
        s.hands_flat() ==> s.pair(a, b).state.hands_flat(),
{
    let other = !s.turn;
    let e = PileView::empty();
    if s.combine(kind, a, b).result is Ok {
        let z = kind.reduce(s.pile(a), s.pile(b))->Ok_0.owned_by(s.turn);
        let s1 = s.with_pile(a, e);
        lemma_count_stacks_update(s.floor, a.slot(), e, other);
        let s2 = s1.with_pile(b, e);
        if b is Floor {
            lemma_count_stacks_update(s1.floor, b.slot(), e, other);
        }
        assert(count_stacks(s2.floor, other) <= count_stacks(s.floor, other));
        assert(s.hands_flat() ==> s2.hands_flat());
        lemma_count_stacks_update(s2.floor, a.slot(), z, other);
        assert(s2.floor[a.slot()] == e);
    }
    if s.combine(Combination::Pair, a, b).result is Ok {
        let s1 = s.with_pile(a, e);
        lemma_count_stacks_update(s.floor, a.slot(), e, other);
        let s2 = s1.with_pile(b, e);
        if b is Floor {
            lemma_count_stacks_update(s1.floor, b.slot(), e, other);
        }
        assert(count_stacks(s2.floor, other) <= count_stacks(s.floor, other));
        assert(s.hands_flat() ==> s2.hands_flat());
    }
}

/// The first pass over a move of a valid shape gives the other player no
/// stack, and leaves the hands with single cards.
pub proof fn lemma_build_pass_ownership(s: StateView, actions: Seq<Action>, k: nat)
    requires
        s.wf(),
        s.covers(actions),
        move_validity(actions) is Ok,
        k < actions.len(),
    ensures
        count_stacks(s.build_pass(actions, k).state.floor, !s.turn) <= count_stacks(
            s.floor,
            !s.turn,
        ),
        s.hands_flat() ==> s.build_pass(actions, k).state.hands_flat(),
    decreases k,
{
    if k > 0 {
        lemma_build_pass_ownership(s, actions, (k - 1) as nat);
        lemma_build_pass_keeps(s, actions, (k - 1) as nat);
        lemma_hand_comes_last(actions);
        let prev = s.build_pass(actions, (k - 1) as nat);
        let left = actions[actions.len() - 1 - k];
        let right = actions[actions.len() - k];
        assert(s.in_range(left.address));
        assert(s.in_range(right.address));
        if prev.result is Ok && right.operation != Operation::Passive {
            lemma_combine_ownership(prev.state, Combination::Build, left.address, right.address);
        }
    }
}

/// The second pass over a move into a floor pile gives the other player no
/// stack, and leaves the hands with single cards.
pub proof fn lemma_root_pass_ownership(
    s: StateView,
    destination: Address,
    roots: Seq<Address>,
    pair: bool,
    k: nat,
)
    requires
        s.wf(),
        destination is Floor,
        s.in_range(destination),
        forall|j: int| 0 <= j < roots.len() ==> s.in_range(#[trigger] roots[j]),
        k <= roots.len(),
    ensures
        count_stacks(s.root_pass(destination, roots, pair, k).state.floor, !s.turn)
            <= count_stacks(s.floor, !s.turn),
        s.hands_flat() ==> s.root_pass(destination, roots, pair, k).state.hands_flat(),
    decreases k,
{
    if k > 0 {
        lemma_root_pass_ownership(s, destination, roots, pair, (k - 1) as nat);
        lemma_root_pass_keeps(s, destination, roots, pair, (k - 1) as nat);
        let prev = s.root_pass(destination, roots, pair, (k - 1) as nat);
        let root = roots[roots.len() - k];
        assert(s.in_range(root));
        if prev.result is Ok {
            lemma_combine_ownership(prev.state, Combination::Group, destination, root);
        }
    }
}

/// A discard from a hand of single cards gives the other player no stack,
/// and leaves the hands with single cards.
pub proof fn lemma_discard_ownership(s: StateView, a: Address)
    requires
        s.in_range(a),
        s.hands_flat(),
    ensures
        count_stacks(s.discard(a).state.floor, !s.turn) <= count_stacks(s.floor, !s.turn),
        s.discard(a).state.hands_flat(),
{
    lemma_first_empty(s.floor, 0);
    if s.discard(a).result is Ok {
        let j = first_empty(s.floor, 0);
        assert(s.pile(a).cards.len() <= 1);
        lemma_count_stacks_update(s.floor, j, s.pile(a), !s.turn);
    }
}

/// After a move that succeeds on a state whose hands hold single cards,
/// the player who moved owns one stack at most, the other player owns no
/// more stacks than before, and the hands hold single cards.
pub proof fn lemma_apply_ownership(s: StateView, actions: Seq<Action>)
    requires
        s.wf(),
        s.seated(),
        s.covers(actions),
        s.hands_flat(),
        s.apply(actions).result is Ok,
    ensures
        count_stacks(s.apply(actions).state.floor, s.turn) <= 1,
        count_stacks(s.apply(actions).state.floor, !s.turn) <= count_stacks(s.floor, !s.turn),
        s.apply(actions).state.hands_flat(),
        s.owned_once() ==> s.apply(actions).state.owned_once(),
{
    lemma_hand_comes_last(actions);
    let n = actions.len();
    let destination = actions[0].address;
    let pair = actions[0].operation == Operation::Active;
    lemma_build_pass_keeps(s, actions, (n - 1) as nat);
    lemma_build_pass_ownership(s, actions, (n - 1) as nat);
    let built = s.build_pass(actions, (n - 1) as nat);
    assert(s.in_range(destination));
    lemma_root_pass_keeps(built.state, destination, built.roots, pair, built.roots.len());
    if n >= 2 {
        lemma_root_pass_ownership(built.state, destination, built.roots, pair, built.roots.len());
    } else {
        assert(built.roots.len() == 0);
    }
    let rooted = built.state.root_pass(destination, built.roots, pair, built.roots.len());
    lemma_collapse_keeps(rooted.state);
    lemma_count_stacks_compacted(rooted.state.floor, !s.turn);
    let collapsed = rooted.state.collapse();
    if destination is Hand && !pair {
        lemma_discard_ownership(collapsed, destination);
    }
}

} // verus!
