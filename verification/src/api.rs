//! The game as a caller sees it through plain values: piles as arrays of
//! card ids, the status of the game, moves as text, errors as text and the
//! scores as cards of points.

use crate::action::{annotation_actions, lemma_annotation_seats, Annotation};
use crate::card::{Card, INVALID_ID};
use crate::game::{Game, GameView};
use crate::pile::{Mark, Pile as BasePile, PileView};
use crate::rng::Seed;
use crate::score::Score;
use crate::state::{count_filled, StateError, StateView, FLOOR_SIZE, HAND_SIZE};
use vstd::prelude::*;
use vstd::std_specs::convert::FromSpecImpl;
use vstd::utf8::encode_utf8;

verus! {

/// The number of card ids that a pile of this interface holds.
pub const PILE_SIZE: usize = 20;

/// API level card pile data
#[derive(Copy, Clone, Debug, PartialEq, Eq)]
pub struct Pile {
    pub cards: [u8; 20],
    pub value: u8,
    pub build: bool,
    pub owner: bool,
}

/// The ids of some cards in 20 places, with 52 in the places left over.
pub open spec fn card_ids(cards: Seq<Card>) -> Seq<u8> {
    Seq::new(
        PILE_SIZE as nat,
        |j: int|
            if j < cards.len() {
                cards[j].id()
            } else {
                INVALID_ID
            },
    )
}

/// The cards of some ids: each id below 52 decoded, the others left out.
pub open spec fn cards_of_ids(ids: Seq<u8>) -> Seq<Card>
    decreases ids.len(),
{
    if ids.len() == 0 {
        Seq::empty()
    } else if ids.last() < INVALID_ID {
        cards_of_ids(ids.drop_last()).push(Card::of_id(ids.last()))
    } else {
        cards_of_ids(ids.drop_last())
    }
}

/// The marker of a pile of this interface: by the number of its cards, and
/// for more than one by its build flag.
pub open spec fn mark_of(count: nat, build: bool) -> Mark {
    if count == 0 {
        Mark::Empty
    } else if count == 1 {
        Mark::Single
    } else if build {
        Mark::Build
    } else {
        Mark::Group
    }
}

impl Pile {
    /// The pile that a pile of this interface stands for. It is owned by
    /// nobody.
    pub open spec fn decoded(self) -> PileView {
        PileView {
            cards: cards_of_ids(self.cards@),
            value: self.value,
            mark: mark_of(cards_of_ids(self.cards@).len(), self.build),
            owner: false,
        }
    }

    /// Whether this is the pile of this interface that stands for `p`.
    pub open spec fn encodes(self, p: PileView) -> bool {
        &&& self.cards@ == card_ids(p.cards)
        &&& self.value == p.value
        &&& self.build == (p.mark == Mark::Build)
        &&& self.owner == p.owner
    }
}

impl Default for Pile {
    fn default() -> (p: Pile)
        ensures
            p.encodes(PileView::empty()),
    {
        let p = Pile { cards: [52; 20], value: 0, build: false, owner: false };
        assert(p.cards@ =~= card_ids(Seq::empty()));
        p
    }
}

impl From<Pile> for BasePile {
    fn from(pile: Pile) -> (p: BasePile)
        ensures
            p@ == pile.decoded(),
    {
        let mut cards: Vec<Card> = Vec::new();
        let mut i: usize = 0;
        assert(pile.cards@.take(0) =~= Seq::empty());
        while i < 20
            invariant
                i <= 20,
                pile.cards@.len() == 20,
                cards@ == cards_of_ids(pile.cards@.take(i as int)),
            decreases 20 - i,
        {
            assert(pile.cards@.take(i as int + 1).drop_last() =~= pile.cards@.take(i as int));
            if pile.cards[i] < INVALID_ID {
                cards.push(Card::from(pile.cards[i]));
            }
            i += 1;
        }
        assert(pile.cards@.take(20) =~= pile.cards@);
        let mark = if cards.len() == 0 {
            Mark::Empty
        } else if cards.len() == 1 {
            Mark::Single
        } else if pile.build {
            Mark::Build
        } else {
            Mark::Group
        };
        BasePile::new(cards, pile.value, mark)
    }
}

impl FromSpecImpl<Pile> for BasePile {
    open spec fn obeys_from_spec() -> bool {
        false
    }

    open spec fn from_spec(pile: Pile) -> BasePile {
        arbitrary()
    }
}

/// Game status and telemetry
#[derive(Copy, Clone, Debug, PartialEq, Eq)]
pub struct Status {
    pub game: u8,
    pub round: u8,
    pub turn: bool,
    pub hand: u8,
    pub floor: u8,
    pub seed: Seed,
}

/// API level player scorecard
#[derive(Copy, Clone, Debug, PartialEq, Eq, Structural)]
pub struct Scorecard {
    pub aces: u8,
    pub most_cards: u8,
    pub most_spades: u8,
    pub suipi_count: u8,
    pub ten_of_diamonds: u8,
    pub two_of_spades: u8,
    pub total: u8,
}

impl Default for Scorecard {
    fn default() -> (c: Scorecard)
        ensures
            c == Scorecard::blank(),
    {
        Scorecard {
            aces: 0,
            most_cards: 0,
            most_spades: 0,
            suipi_count: 0,
            ten_of_diamonds: 0,
            two_of_spades: 0,
            total: 0,
        }
    }
}

impl Scorecard {
    /// The scorecard without a point.
    pub open spec fn blank() -> Scorecard {
        Scorecard {
            aces: 0,
            most_cards: 0,
            most_spades: 0,
            suipi_count: 0,
            ten_of_diamonds: 0,
            two_of_spades: 0,
            total: 0,
        }
    }

    /// The dealer's points of a score, award by award, and their sum.
    pub open spec fn of_dealer(score: Score) -> Scorecard {
        Scorecard {
            aces: score.dealer_aces,
            most_cards: score.most_cards.dealer_points(),
            most_spades: score.most_spades.dealer_points(),
            suipi_count: score.suipi_bonus.dealer_points(),
            ten_of_diamonds: score.ten_of_diamonds.dealer_points(),
            two_of_spades: score.two_of_spades.dealer_points(),
            total: score.dealer_sum() as u8,
        }
    }

    /// The opponent's points of a score, award by award, and their sum.
    pub open spec fn of_opponent(score: Score) -> Scorecard {
        Scorecard {
            aces: score.opponent_aces,
            most_cards: score.most_cards.opponent_points(),
            most_spades: score.most_spades.opponent_points(),
            suipi_count: score.suipi_bonus.opponent_points(),
            ten_of_diamonds: score.ten_of_diamonds.opponent_points(),
            two_of_spades: score.two_of_spades.opponent_points(),
            total: score.opponent_sum() as u8,
        }
    }

    /// Get the scorecard of the dealer
    pub fn dealer(score: &Score) -> (c: Scorecard)
        requires
            score.dealer_sum() <= u8::MAX,
        ensures
            c == Scorecard::of_dealer(*score),
    {
        let points = score.dealer_points();
        assert(points@[0] == score.award_list()[0].dealer_points());
        assert(points@[1] == score.award_list()[1].dealer_points());
        assert(points@[2] == score.award_list()[2].dealer_points());
        assert(points@[3] == score.award_list()[3].dealer_points());
        assert(points@[4] == score.award_list()[4].dealer_points());
        Scorecard {
            aces: score.dealer_aces,
            most_cards: points[0],
            most_spades: points[1],
            suipi_count: points[2],
            ten_of_diamonds: points[3],
            two_of_spades: points[4],
            total: score.dealer_total(),
        }
    }

    /// Get the scorecard of the opponent
    pub fn opponent(score: &Score) -> (c: Scorecard)
        requires
            score.opponent_sum() <= u8::MAX,
        ensures
            c == Scorecard::of_opponent(*score),
    {
        let points = score.opponent_points();
        assert(points@[0] == score.award_list()[0].opponent_points());
        assert(points@[1] == score.award_list()[1].opponent_points());
        assert(points@[2] == score.award_list()[2].opponent_points());
        assert(points@[3] == score.award_list()[3].opponent_points());
        assert(points@[4] == score.award_list()[4].opponent_points());
        Scorecard {
            aces: score.opponent_aces,
            most_cards: points[0],
            most_spades: points[1],
            suipi_count: points[2],
            ten_of_diamonds: points[3],
            two_of_spades: points[4],
            total: score.opponent_total(),
        }
    }
}

/// The id of the first card of a pile, or 52 where it has none.
pub open spec fn top_id(p: PileView) -> u8 {
    if p.cards.len() > 0 {
        p.cards[0].id()
    } else {
        INVALID_ID
    }
}

/// The hand that is read in place `i` of 16: the hand of the player whose
/// turn it is in the first 8 places, the other hand in the last 8.
pub open spec fn hand_at(s: StateView, i: int) -> Seq<PileView> {
    if s.turn != (i >= 8) {
        s.dealer.hand
    } else {
        s.opponent.hand
    }
}

/// What the text of an error says of the outcome of a move: nothing where
/// the move succeeded.
pub open spec fn outcome_text(r: Result<(), StateError>) -> Seq<char> {
    match r {
        Ok(_) => Seq::empty(),
        Err(e) => e.message(),
    }
}

/// Whether the first two scores of a game fit on scorecards: the points of
/// either player sum to 255 at most.
pub open spec fn scores_fit(scores: Seq<Score>) -> bool {
    forall|i: int|
        0 <= i < scores.len() && i < 2 ==> (#[trigger] scores[i]).dealer_sum() <= u8::MAX
            && scores[i].opponent_sum() <= u8::MAX
}

/// Whether every pile of the first 13 floor slots fits into a pile of this
/// interface, and the slots are there.
pub open spec fn floor_fits(s: StateView) -> bool {
    &&& s.floor.len() >= FLOOR_SIZE
    &&& forall|i: int| 0 <= i < FLOOR_SIZE ==> (#[trigger] s.floor[i]).cards.len() <= PILE_SIZE
}

/// Can the floor be read?
pub fn can_read_floor(g: &Game) -> (b: bool)
    ensures
        b == floor_fits(g@.state),
{
    if g.state.floor.len() < FLOOR_SIZE {
        return false;
    }
    let mut i: usize = 0;
    while i < FLOOR_SIZE
        invariant
            i <= FLOOR_SIZE,
            g.state.floor.len() >= FLOOR_SIZE,
            forall|k: int| 0 <= k < i ==> (#[trigger] g@.state.floor[k]).cards.len() <= PILE_SIZE,
        decreases FLOOR_SIZE - i,
    {
        assert(g@.state.floor[i as int] == g.state.floor@[i as int]@);
        if g.state.floor[i].cards.len() > PILE_SIZE {
            return false;
        }
        i += 1;
    }
    true
}

/// Can both hands be read?
pub fn can_read_hands(g: &Game) -> (b: bool)
    ensures
        b == (g@.state.dealer.hand.len() >= HAND_SIZE && g@.state.opponent.hand.len()
            >= HAND_SIZE),
{
    g.state.dealer.hand.len() >= HAND_SIZE && g.state.opponent.hand.len() >= HAND_SIZE
}

/// Do the points of one score fit on scorecards?
fn score_fits(score: &Score) -> (b: bool)
    ensures
        b == (score.dealer_sum() <= u8::MAX && score.opponent_sum() <= u8::MAX),
{
    let d = score.dealer_points();
    let o = score.opponent_points();
    assert(d@[0] == score.award_list()[0].dealer_points());
    assert(d@[1] == score.award_list()[1].dealer_points());
    assert(d@[2] == score.award_list()[2].dealer_points());
    assert(d@[3] == score.award_list()[3].dealer_points());
    assert(d@[4] == score.award_list()[4].dealer_points());
    assert(o@[0] == score.award_list()[0].opponent_points());
    assert(o@[1] == score.award_list()[1].opponent_points());
    assert(o@[2] == score.award_list()[2].opponent_points());
    assert(o@[3] == score.award_list()[3].opponent_points());
    assert(o@[4] == score.award_list()[4].opponent_points());
    let dealer: u16 = d[0] as u16 + d[1] as u16 + d[2] as u16 + d[3] as u16 + d[4] as u16
        + score.dealer_aces as u16;
    let opponent: u16 = o[0] as u16 + o[1] as u16 + o[2] as u16 + o[3] as u16 + o[4] as u16
        + score.opponent_aces as u16;
    dealer <= 255 && opponent <= 255
}

/// Can the scores be read?
pub fn can_get_scores(g: &Game) -> (b: bool)
    ensures
        b == scores_fit(g@.scores),
{
    if g.scores.len() > 0 && !score_fits(&g.scores[0]) {
        return false;
    }
    if g.scores.len() > 1 && !score_fits(&g.scores[1]) {
        return false;
    }
    true
}

/// Initialize a new game from the given seed, or from a random one
pub fn new_game(seed: Option<Seed>) -> (g: Game)
    ensures
        g@ == GameView::started(g@.rng.seed),
        seed matches Some(s) ==> g@.rng.seed == s@,
        g@.wf(),
{
    let mut g = Game::default();
    match seed {
        Some(s) => {
            g.seed(s);
        },
        None => {},
    }
    g.deal();
    g
}

/// Get the status signals for a game
pub fn status(g: &Game) -> (s: Status)
    ensures
        s.game == g@.game,
        s.round == g@.round,
        s.turn == g@.state.turn,
        s.hand == count_filled(g@.state.player().hand) % 256,
        s.floor == g@.state.floor_count() % 256,
        s.seed@ == g@.rng.seed,
{
    Status {
        game: g.game,
        round: g.round,
        turn: g.state.turn,
        hand: (g.state.player().card_count() % 256) as u8,
        floor: (g.state.floor_count() % 256) as u8,
        seed: g.rng.seed,
    }
}

/// Read both player's hands, the current player's first
pub fn read_hands(g: &Game) -> (r: [u8; 16])
    requires
        g@.state.dealer.hand.len() >= HAND_SIZE,
        g@.state.opponent.hand.len() >= HAND_SIZE,
    ensures
        forall|i: int| 0 <= i < 16 ==> #[trigger] r@[i] == top_id(hand_at(g@.state, i)[i % 8]),
{
    let mut cards: [u8; 16] = [0; 16];
    let mut i: usize = 0;
    while i < 16
        invariant
            i <= 16,
            g@.state.dealer.hand.len() >= HAND_SIZE,
            g@.state.opponent.hand.len() >= HAND_SIZE,
            forall|k: int| 0 <= k < i ==> #[trigger] cards@[k] == top_id(hand_at(g@.state, k)[k % 8]),
        decreases 16 - i,
    {
        let di = i % 8;
        let p = if g.state.turn ^ (i >= 8) {
            &g.state.dealer
        } else {
            &g.state.opponent
        };
        assert(p@.hand == hand_at(g@.state, i as int));
        assert(p@.hand[di as int] == p.hand@[di as int]@);
        let pile = &p.hand[di];
        let id = if pile.cards.len() > 0 {
            u8::from(pile.cards[0])
        } else {
            u8::from(Card::invalid())
        };
        cards[i] = id;
        i += 1;
    }
    cards
}

/// Read the current floor piles
pub fn read_floor(g: &Game) -> (r: [Pile; 13])
    requires
        floor_fits(g@.state),
    ensures
        forall|i: int| 0 <= i < FLOOR_SIZE ==> (#[trigger] r@[i]).encodes(g@.state.floor[i]),
{
    let mut piles: [Pile; 13] = [Pile::default(); 13];
    let mut i: usize = 0;
    while i < 13
        invariant
            i <= 13,
            g@.state.floor.len() >= FLOOR_SIZE,
            forall|k: int|
                0 <= k < FLOOR_SIZE ==> (#[trigger] g@.state.floor[k]).cards.len() <= PILE_SIZE,
            forall|k: int| 0 <= k < i ==> (#[trigger] piles@[k]).encodes(g@.state.floor[k]),
        decreases 13 - i,
    {
        let f = &g.state.floor[i];
        assert(f@ == g@.state.floor[i as int]);
        let mut p = Pile::default();
        p.value = f.value;
        p.build = f.is_build();
        p.owner = f.owner;
        let mut j: usize = 0;
        while j < f.cards.len()
            invariant
                j <= f.cards.len(),
                f.cards.len() <= PILE_SIZE,
                p.value == f.value,
                p.build == (f.mark == Mark::Build),
                p.owner == f.owner,
                forall|k: int| 0 <= k < j ==> #[trigger] p.cards@[k] == f.cards@[k].id(),
                forall|k: int| j <= k < PILE_SIZE ==> #[trigger] p.cards@[k] == INVALID_ID,
            decreases f.cards.len() - j,
        {
            p.cards[j] = u8::from(f.cards[j]);
            j += 1;
        }
        assert(p.cards@ =~= card_ids(f@.cards));
        piles[i] = p;
        i += 1;
    }
    piles
}

/// Attempt to apply a move to the game state
pub fn apply_move(g: &mut Game, a: &str) -> (e: String)
    requires
        old(g)@.state.seated(),
    ensures
        match annotation_actions(encode_utf8(a@)) {
            Err(error) => e@ == error.message() && final(g)@ == old(g)@,
            Ok(actions) => {
                &&& final(g)@ == old(g)@.apply(actions)
                &&& e@ == outcome_text(old(g)@.state.apply(actions).result)
            },
        },
        e@.len() > 0 ==> final(g)@ == old(g)@,
        old(g)@.wf() ==> final(g)@.wf(),
{
    let annotation = Annotation::new(String::from_str(a));
    match annotation.to_move() {
        Err(e) => e.to_string(),
        Ok(m) => {
            proof {
                lemma_annotation_seats(annotation.text());
                assert forall|i: int| 0 <= i < m@.len() implies g@.state.in_range(
                    (#[trigger] m@[i]).address,
                ) by {
                    assert(m@[i].address.is_seat());
                }
            }
            match g.apply(m) {
                Err(e) => {
                    let text = e.to_string();
                    proof {
                        lemma_message_not_empty(e);
                    }
                    text
                },
                Ok(_) => String::new(),
            }
        },
    }
}

/// The text of a state error is not empty.
pub proof fn lemma_message_not_empty(e: StateError)
    ensures
        e.message().len() > 0,
{
    reveal_strlit("State Error: ");
}

/// End the current player's turn
pub fn next_turn(g: &mut Game)
    requires
        old(g)@.can_tick(),
    ensures
        old(g)@.ticks_to(final(g)@),
        old(g)@.wf() ==> final(g)@.wf(),
{
    g.tick();
}

/// Undo the most recent move
pub fn undo(g: &mut Game)
    ensures
        final(g)@ == old(g)@.undo(),
        old(g)@.wf() ==> final(g)@.wf(),
{
    g.undo();
}

/// Get an array of score cards for the completed games
pub fn get_scores(g: &Game) -> (r: [Scorecard; 4])
    requires
        scores_fit(g@.scores),
    ensures
        forall|i: int|
            0 <= i < 2 ==> (#[trigger] r@[2 * i]) == (if i < g@.scores.len() {
                Scorecard::of_opponent(g@.scores[i])
            } else {
                Scorecard::blank()
            }),
        forall|i: int|
            0 <= i < 2 ==> (#[trigger] r@[2 * i + 1]) == (if i < g@.scores.len() {
                Scorecard::of_dealer(g@.scores[i])
            } else {
                Scorecard::blank()
            }),
{
    let mut scores: [Scorecard; 4] = [Scorecard::default(); 4];
    if g.scores.len() > 0 {
        assert(g@.scores[0].dealer_sum() <= u8::MAX);
        scores[0] = Scorecard::opponent(&g.scores[0]);
        scores[1] = Scorecard::dealer(&g.scores[0]);
    }
    if g.scores.len() > 1 {
        assert(g@.scores[1].dealer_sum() <= u8::MAX);
        scores[2] = Scorecard::opponent(&g.scores[1]);
        scores[3] = Scorecard::dealer(&g.scores[1]);
    }
    scores
}

} // verus!
