//! A game of several rounds: the state with its counters, its scores and
//! the states that a move can be undone to.

use crate::action::{Action, Move};
use crate::card::Card;
use crate::ownership::{lemma_apply_ownership, lemma_flat_has_no_stacks};
use crate::rng::{Rng, RngView, Seed};
use crate::score::Score;
use crate::invariants::{
    lemma_apply_keeps, lemma_deal_floor_keeps, lemma_deal_hands_keeps, lemma_empty_piles,
    lemma_apply_unique_floor, lemma_deal_floor_unique, lemma_full_deck, lemma_shuffle_keeps,
};
use crate::state::{
    count_cards, count_filled, full_deck, PlayerView, State, StateError, StateView,
};
use vstd::prelude::*;

verus! {

/// A game in progress
pub struct Game {
    pub game: u8,
    pub round: u8,
    pub rng: Rng,
    pub state: State,
    pub scores: Vec<Score>,
    pub history: Vec<State>,
}

/// What a game holds: the number of the game and of the round, the
/// generator, the state, the score of each game so far, and the states
/// before each move that can still be undone, oldest first.
pub struct GameView {
    pub game: u8,
    pub round: u8,
    pub rng: RngView,
    pub state: StateView,
    pub scores: Seq<Score>,
    pub history: Seq<StateView>,
}

/// The views of the states of a sequence, in order.
pub open spec fn state_views(states: Seq<State>) -> Seq<StateView> {
    Seq::new(states.len(), |i: int| states[i]@)
}

/// Whether `deck` holds the cards of `cards`, each as often, in some order.
pub open spec fn is_shuffle(deck: Seq<Card>, cards: Seq<Card>) -> bool {
    deck.to_multiset() == cards.to_multiset()
}

/// The view of a state that may be absent.
pub open spec fn undone_view(s: Option<State>) -> Option<StateView> {
    match s {
        Some(s) => Some(s@),
        None => None,
    }
}

impl View for Game {
    type V = GameView;

    open spec fn view(&self) -> GameView {
        GameView {
            game: self.game,
            round: self.round,
            rng: self.rng@,
            state: self.state@,
            scores: self.scores@,
            history: state_views(self.history@),
        }
    }
}

impl GameView {
    /// The game with the generator `rng` before anything is dealt.
    pub open spec fn empty(rng: RngView) -> GameView {
        GameView {
            game: 0,
            round: 0,
            rng,
            state: StateView::empty(),
            scores: Seq::empty(),
            history: Seq::empty(),
        }
    }

    /// The game that is dealt from the seed `seed` before any move.
    pub open spec fn started(seed: Seq<u8>) -> GameView {
        GameView::empty(RngView::seeded(seed)).dealt()
    }

    /// The game after the first deal of a game from the shuffled `deck`,
    /// with the generator as the shuffle left it: a score for the game is
    /// opened, the hands are dealt, then the floor.
    pub open spec fn opened(self, deck: Seq<Card>, rng: RngView) -> GameView {
        GameView {
            rng,
            scores: self.scores.push(Score::of(self.state)),
            state: (StateView { deck, ..self.state }).deal_hands().deal_floor(),
            ..self
        }
    }

    /// The game after a deal. In round 0 the deck gets the 52 cards and is
    /// shuffled by the generator, and the game is opened from it; in a later
    /// round the hands are dealt from the deck as it is.
    pub open spec fn dealt(self) -> GameView {
        let cards = self.state.deck + full_deck();
        if self.round == 0 {
            self.opened(self.rng.shuffled(cards), self.rng.after(cards))
        } else {
            self.redealt()
        }
    }

    /// The game after the deal of a later round: the hands are dealt.
    pub open spec fn redealt(self) -> GameView {
        GameView { state: self.state.deal_hands(), ..self }
    }

    /// Whether `next` can be the game after a deal, whatever the generator
    /// draws: in round 0 `next` is opened from some order of the deck with
    /// the 52 cards added; in a later round the hands are dealt from the
    /// deck as it is.
    pub open spec fn deals_to(self, next: GameView) -> bool {
        if self.round == 0 {
            exists|deck: Seq<Card>, rng: RngView|
                is_shuffle(deck, self.state.deck + full_deck()) && next == #[trigger] self.opened(
                    deck,
                    rng,
                )
        } else {
            next == self.redealt()
        }
    }

    /// The state after the turn is closed: the player who left the floor
    /// without a pile has cleared it once more, and the turn goes to the
    /// dealer where the dealer has more cards in hand, else to the opponent.
    pub open spec fn closed_turn(self) -> StateView {
        let s = self.state;
        let cleared = if s.floor_count() == 0 {
            s.with_player(
                PlayerView {
                    suipi_count: (s.player().suipi_count + 1) as u8,
                    ..s.player()
                },
            )
        } else {
            s
        };
        StateView {
            turn: count_filled(s.dealer.hand) > count_filled(s.opponent.hand),
            ..cleared
        }
    }

    /// Whether both hands are empty.
    pub open spec fn round_over(self) -> bool {
        count_filled(self.state.dealer.hand) == 0 && count_filled(self.state.opponent.hand) == 0
    }

    /// Whether the game is over: both hands and the deck are empty.
    pub open spec fn game_over(self) -> bool {
        self.round_over() && self.state.deck.len() == 0
    }

    /// The game after a turn, before any deal. While a hand holds a card the
    /// score of the game is brought up to date. When the round is over and
    /// the deck holds cards the next round begins. When the game is over the
    /// floor goes to the player who scored last, the game is scored, and the
    /// next game begins with an empty state and nothing to undo.
    pub open spec fn settled(self) -> GameView {
        let s = self.closed_turn();
        if !self.round_over() {
            GameView { state: s, scores: self.scores.update(self.game as int, Score::of(s)), ..self }
        } else if self.state.deck.len() == 0 {
            GameView {
                game: (self.game + 1) as u8,
                round: 0,
                rng: self.rng,
                state: StateView::empty(),
                scores: self.scores.update(self.game as int, Score::of(s.pickup_floor())),
                history: Seq::empty(),
            }
        } else {
            GameView { round: (self.round + 1) as u8, state: s, ..self }
        }
    }

    /// The game after a turn: the settled game, dealt anew where the round
    /// is over.
    pub open spec fn ticked(self) -> GameView {
        if self.round_over() {
            self.settled().dealt()
        } else {
            self.settled()
        }
    }

    /// Whether `next` can be the game after a turn, whatever the generator
    /// draws: the settled game, dealt anew where the round is over.
    pub open spec fn ticks_to(self, next: GameView) -> bool {
        if self.round_over() {
            self.settled().deals_to(next)
        } else {
            next == self.settled()
        }
    }

    /// Whether a turn can be closed without a counter running over: the
    /// game has its score, and the counter that the turn raises is below 255.
    pub open spec fn can_tick(self) -> bool {
        &&& self.game < self.scores.len()
        &&& self.state.floor_count() == 0 ==> self.state.player().suipi_count < u8::MAX
        &&& self.game_over() ==> self.game < u8::MAX
        &&& self.round_over() && !self.game_over() ==> self.round < u8::MAX
    }

    /// Whether a game is being played: it has a score for each game up to
    /// the current one, and its state and every state that can be undone to
    /// are in play, with all 52 cards, unique values on the floor and one
    /// stack for each player at most.
    pub open spec fn wf(self) -> bool {
        &&& self.scores.len() == self.game + 1
        &&& self.state.in_play()
        &&& forall|i: int| 0 <= i < self.history.len() ==> (#[trigger] self.history[i]).in_play()
    }

    /// Whether a game is about to be dealt for the first time: it is in
    /// round 0 with an empty state, nothing to undo, and a score for each
    /// game before the current one.
    pub open spec fn fresh(self) -> bool {
        &&& self.round == 0
        &&& self.state == StateView::empty()
        &&& self.scores.len() == self.game
        &&& self.history.len() == 0
    }

    /// The game after a move: on success the state before the move can be
    /// undone to, on failure nothing has changed.
    pub open spec fn apply(self, actions: Seq<Action>) -> GameView {
        let step = self.state.apply(actions);
        if step.result is Ok {
            GameView { state: step.state, history: self.history.push(self.state), ..self }
        } else {
            self
        }
    }

    /// The game after an undo: the state goes back to the one before the
    /// last move, if there is one.
    pub open spec fn undo(self) -> GameView {
        if self.history.len() > 0 {
            GameView { state: self.history.last(), history: self.history.drop_last(), ..self }
        } else {
            self
        }
    }
}

impl Default for Game {
    fn default() -> (g: Game)
        ensures
            g@ == GameView::empty(g@.rng),
            g@.rng.word_pos == 0,
    {
        let g = Game {
            game: 0,
            round: 0,
            rng: Rng::default(),
            state: State::default(),
            scores: Vec::new(),
            history: Vec::new(),
        };
        assert(g@.history =~= Seq::empty());
        g
    }
}

impl Game {
    /// Initialize a game with a RNG seed value
    pub fn seed(&mut self, seed: Seed)
        ensures
            final(self)@ == (GameView { rng: RngView::seeded(seed@), ..old(self)@ }),
    {
        self.rng = Rng::from_seed(seed);
    }

    /// Deal cards for a new round
    pub fn deal(&mut self)
        ensures
            final(self)@ == old(self)@.dealt(),
            old(self)@.deals_to(final(self)@),
            old(self)@.fresh() ==> final(self)@.wf(),
    {
        proof {
            let before = self@;
            assert forall|next: GameView| before.fresh() && before.deals_to(next) implies next.wf() by {
                lemma_deal_wf(before, next);
            }
        }
        if self.round == 0 {
            self.scores.push(Score::from(&self.state));
            self.state.init_deck();
            self.state.shuffle_deck(&mut self.rng);
            let ghost deck = self.state@.deck;
            self.state.deal_hands();
            self.state.deal_floor();
            assert(self@ == old(self)@.opened(deck, self@.rng));
        } else {
            self.state.deal_hands();
        }
    }

    /// Can the turn be closed without a counter running over?
    pub fn can_tick(&self) -> (b: bool)
        ensures
            b == self@.can_tick(),
    {
        let dealer_cards = self.state.dealer.card_count();
        let opponent_cards = self.state.opponent.card_count();
        let round_over = dealer_cards == 0 && opponent_cards == 0;
        let game_over = round_over && self.state.deck.len() == 0;
        if (self.game as usize) >= self.scores.len() {
            return false;
        }
        if self.state.floor_count() == 0 && self.state.player().suipi_count == u8::MAX {
            return false;
        }
        if game_over && self.game == u8::MAX {
            return false;
        }
        if round_over && !game_over && self.round == u8::MAX {
            return false;
        }
        true
    }

    /// Move the game state forward one turn
    pub fn tick(&mut self)
        requires
            old(self)@.can_tick(),
        ensures
            final(self)@ == old(self)@.ticked(),
            old(self)@.ticks_to(final(self)@),
            old(self)@.wf() ==> final(self)@.wf(),
    {
        proof {
            let before = self@;
            assert forall|next: GameView| before.wf() && before.ticks_to(next) implies next.wf() by {
                lemma_tick_wf(before, next);
            }
        }
        // Handle Suipi condition
        if self.state.floor_count() == 0 {
            let player = self.state.player_mut();
            player.suipi_count += 1;
        }
        // Toggle turn
        let dealer_cards = self.state.dealer.card_count();
        let opponent_cards = self.state.opponent.card_count();
        self.state.turn = dealer_cards > opponent_cards;
        assert(self.state@ == old(self)@.closed_turn());
        // Handle end of round
        if dealer_cards == 0 && opponent_cards == 0 {
            // Handle end of game
            if self.state.deck.len() == 0 {
                self.state.pickup_floor();
                let score = Score::from(&self.state);
                let game = self.game as usize;
                self.scores[game] = score;
                self.state = State::default();
                self.history = Vec::new();
                self.round = 0;
                self.game += 1;
                assert(self@.history =~= Seq::empty());
            } else {
                self.round += 1;
            }
            assert(self@ == old(self)@.settled());
            self.deal();
        } else {
            // Bump live scoring every turn
            let score = Score::from(&self.state);
            let game = self.game as usize;
            self.scores[game] = score;
        }
    }

    /// Attempt to replace the current game state with the previous one
    pub fn undo(&mut self) -> (r: Option<State>)
        ensures
            final(self)@ == old(self)@.undo(),
            undone_view(r) == (if old(self)@.history.len() > 0 {
                Some(old(self)@.state)
            } else {
                None
            }),
            old(self)@.wf() ==> final(self)@.wf(),
    {
        proof {
            if self@.wf() {
                lemma_undo_wf(self@);
            }
        }
        let next = self.state.clone();
        let ghost before = self.history@;
        match self.history.pop() {
            Some(prev) => {
                assert(state_views(self.history@) =~= state_views(before).drop_last());
                self.state = prev;
                Some(next)
            },
            None => None,
        }
    }

    /// Attempt to apply a move to the current game state
    pub fn apply(&mut self, m: Move) -> (r: Result<(), StateError>)
        requires
            old(self)@.state.seated(),
            old(self)@.state.covers(m@),
        ensures
            r == old(self)@.state.apply(m@).result,
            final(self)@ == old(self)@.apply(m@),
            r is Err ==> final(self)@ == old(self)@,
            old(self)@.wf() ==> final(self)@.wf(),
    {
        proof {
            if self@.wf() {
                lemma_apply_wf(self@, m@);
            }
        }
        let snapshot = self.state.clone();
        let ghost before = self.history@;
        self.history.push(snapshot);
        assert(state_views(self.history@) =~= state_views(before).push(old(self)@.state));
        assert(state_views(self.history@).drop_last() =~= state_views(before));
        if let Err(e) = self.state.apply(m) {
            self.undo();
            Err(e)
        } else {
            Ok(())
        }
    }
}

/// The first deal of a game puts a game in play: its state is well formed,
/// holds all 52 cards, and has unique values on the floor.
pub proof fn lemma_deal_wf(g: GameView, next: GameView)
    requires
        g.fresh(),
        g.deals_to(next),
    ensures
        next.wf(),
{
    let (deck, rng) = choose|deck: Seq<Card>, rng: RngView|
        is_shuffle(deck, g.state.deck + full_deck()) && next == #[trigger] g.opened(deck, rng);
    assert(g.state.deck + full_deck() =~= full_deck());
    lemma_full_deck();
    lemma_shuffle_keeps(deck, full_deck());
    let s0 = StateView { deck, ..g.state };
    lemma_deal_hands_keeps(s0);
    let s1 = s0.deal_hands();
    lemma_deal_floor_keeps(s1);
    lemma_deal_floor_unique(s1);
    lemma_flat_has_no_stacks(s1.deal_floor().floor, true);
    lemma_flat_has_no_stacks(s1.deal_floor().floor, false);
    assert(count_cards(s0.floor) == 0);
    assert(count_cards(s0.dealer.pairs) == 0);
    assert(count_cards(s0.opponent.pairs) == 0);
}

/// A move on a game in play, whether it succeeds or fails, leaves a game in
/// play: all 52 cards are still there, the floor has unique values, and
/// each player owns one stack at most.
pub proof fn lemma_apply_wf(g: GameView, actions: Seq<Action>)
    requires
        g.wf(),
        g.state.covers(actions),
    ensures
        g.apply(actions).wf(),
{
    lemma_apply_keeps(g.state, actions);
    if g.state.apply(actions).result is Ok {
        lemma_apply_unique_floor(g.state, actions);
        lemma_apply_ownership(g.state, actions);
    }
}

/// An undo on a game in play leaves a game in play.
pub proof fn lemma_undo_wf(g: GameView)
    requires
        g.wf(),
    ensures
        g.undo().wf(),
{
    if g.history.len() > 0 {
        assert(g.history.last().in_play());
        assert forall|i: int| 0 <= i < g.undo().history.len() implies (
        #[trigger] g.undo().history[i]).in_play() by {
            assert(g.undo().history[i] == g.history[i]);
        }
    }
}

/// Closing the turn keeps the state in play.
pub proof fn lemma_closed_turn_keeps(g: GameView)
    requires
        g.state.in_play(),
    ensures
        g.closed_turn().in_play(),
        g.closed_turn().floor == g.state.floor,
        g.closed_turn().deck == g.state.deck,
        g.closed_turn().dealer.hand == g.state.dealer.hand,
        g.closed_turn().opponent.hand == g.state.opponent.hand,
{
}

/// Closing a turn of a game in play, with the deal that may follow, leaves a
/// game in play: no card is lost and none is added, and the floor keeps
/// unique values, whether the round goes on, a new round is dealt or a new
/// game begins.
pub proof fn lemma_tick_wf(g: GameView, next: GameView)
    requires
        g.wf(),
        g.can_tick(),
        g.ticks_to(next),
    ensures
        next.wf(),
{
    lemma_closed_turn_keeps(g);
    let s = g.closed_turn();
    if g.round_over() {
        if g.state.deck.len() == 0 {
            lemma_deal_wf(g.settled(), next);
        } else {
            lemma_deal_hands_keeps(s);
            lemma_empty_piles(s.dealer.hand);
            lemma_empty_piles(s.opponent.hand);
        }
    }
}

/// A move that fails leaves the game as it was: the state, the scores, the
/// counters and the states that can be undone to are those from before the
/// move.
pub proof fn lemma_failed_move_keeps_game(g: GameView, actions: Seq<Action>)
    requires
        g.state.apply(actions).result is Err,
    ensures
        g.apply(actions) == g,
{
}

/// A move that succeeds can be undone: the undo gives back the game from
/// before the move.
pub proof fn lemma_undo_reverts_move(g: GameView, actions: Seq<Action>)
    requires
        g.state.apply(actions).result is Ok,
    ensures
        g.apply(actions).undo() == g,
{
    assert(g.history.push(g.state).drop_last() =~= g.history);
}

} // verus!
