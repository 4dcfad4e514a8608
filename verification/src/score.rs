//! The awards of a game: who holds most cards and most spades, the bonus for
//! clearing the floor, the ten of diamonds, the two of spades and the aces.

use crate::card::Card;
use crate::state::{all_cards, Player, PlayerView, State, StateView};
use vstd::prelude::*;
use vstd::std_specs::convert::FromSpecImpl;

verus! {

/// Point value winners
#[derive(Copy, Clone, Debug, PartialEq, Eq, Structural)]
pub enum Winner {
    Dealer(u8),
    Opponent(u8),
    Tie,
}

impl Default for Winner {
    fn default() -> (w: Winner)
        ensures
            w == Winner::Tie,
    {
        Winner::Tie
    }
}

impl Winner {
    /// The winner between two numbers: who has more wins `score`, and equal
    /// numbers tie.
    pub open spec fn between(dealer: int, opponent: int, score: u8) -> Winner {
        if dealer == opponent {
            Winner::Tie
        } else if dealer > opponent {
            Winner::Dealer(score)
        } else {
            Winner::Opponent(score)
        }
    }

    /// The first of two claims that holds wins `score`, the dealer's before
    /// the opponent's; with neither it is a tie.
    pub open spec fn first(dealer: bool, opponent: bool, score: u8) -> Winner {
        if dealer {
            Winner::Dealer(score)
        } else if opponent {
            Winner::Opponent(score)
        } else {
            Winner::Tie
        }
    }

    /// The points that go to the dealer.
    pub open spec fn dealer_points(self) -> u8 {
        match self {
            Winner::Dealer(x) => x,
            _ => 0,
        }
    }

    /// The points that go to the opponent.
    pub open spec fn opponent_points(self) -> u8 {
        match self {
            Winner::Opponent(x) => x,
            _ => 0,
        }
    }

    /// Get a winner between two number values
    pub fn new(dealer: usize, opponent: usize, score: u8) -> (w: Winner)
        ensures
            w == Winner::between(dealer as int, opponent as int, score),
    {
        if dealer == opponent {
            Winner::Tie
        } else if dealer > opponent {
            Winner::Dealer(score)
        } else {
            Winner::Opponent(score)
        }
    }

    /// Get the first winner or tie
    pub fn either(dealer: bool, opponent: bool, score: u8) -> (w: Winner)
        ensures
            w == Winner::first(dealer, opponent, score),
    {
        if dealer {
            Winner::Dealer(score)
        } else if opponent {
            Winner::Opponent(score)
        } else {
            Winner::Tie
        }
    }
}

/// The number of cards of the rank `rank`.
pub open spec fn count_rank(cards: Seq<Card>, rank: u8) -> nat
    decreases cards.len(),
{
    if cards.len() == 0 {
        0
    } else {
        count_rank(cards.drop_last(), rank) + if cards.last().value == rank {
            1nat
        } else {
            0nat
        }
    }
}

/// The number of cards of the suit `suit`.
pub open spec fn count_suit(cards: Seq<Card>, suit: u8) -> nat
    decreases cards.len(),
{
    if cards.len() == 0 {
        0
    } else {
        count_suit(cards.drop_last(), suit) + if cards.last().suit == suit {
            1nat
        } else {
            0nat
        }
    }
}

/// The ten of diamonds.
pub open spec fn ten_of_diamonds() -> Card {
    Card { value: 10, suit: 1 }
}

/// The two of spades.
pub open spec fn two_of_spades() -> Card {
    Card { value: 2, suit: 3 }
}

/// Individual player score data
#[derive(Copy, Clone, Debug, PartialEq, Eq, Structural)]
pub struct PlayerScore {
    pub aces: usize,
    pub suipi_count: usize,
    pub total_cards: usize,
    pub total_spades: usize,
    pub ten_of_diamonds: bool,
    pub two_of_spades: bool,
}

impl Default for PlayerScore {
    fn default() -> (s: PlayerScore)
        ensures
            s == (PlayerScore {
                aces: 0,
                suipi_count: 0,
                total_cards: 0,
                total_spades: 0,
                ten_of_diamonds: false,
                two_of_spades: false,
            }),
    {
        PlayerScore {
            aces: 0,
            suipi_count: 0,
            total_cards: 0,
            total_spades: 0,
            ten_of_diamonds: false,
            two_of_spades: false,
        }
    }
}

impl PlayerScore {
    /// What a player has scored: the aces, spades and cards among the
    /// captured cards, whether the ten of diamonds and the two of spades are
    /// among them, and the number of times the player cleared the floor.
    pub open spec fn of(player: PlayerView) -> PlayerScore {
        let cards = all_cards(player.pairs);
        PlayerScore {
            aces: count_rank(cards, 1) as usize,
            suipi_count: player.suipi_count as usize,
            total_cards: cards.len() as usize,
            total_spades: count_suit(cards, 3) as usize,
            ten_of_diamonds: cards.contains(ten_of_diamonds()),
            two_of_spades: cards.contains(two_of_spades()),
        }
    }
}

impl From<&Player> for PlayerScore {
    fn from(player: &Player) -> (score: PlayerScore) {
        let cards = player.into_pair_cards();
        let ghost all = cards@;
        let mut aces: usize = 0;
        let mut spades: usize = 0;
        let mut ten = false;
        let mut two = false;
        let mut i: usize = 0;
        assert(all.take(0) =~= Seq::empty());
        while i < cards.len()
            invariant
                all == cards@,
                i <= cards.len(),
                aces == count_rank(all.take(i as int), 1),
                spades == count_suit(all.take(i as int), 3),
                aces <= i,
                spades <= i,
                ten == all.take(i as int).contains(ten_of_diamonds()),
                two == all.take(i as int).contains(two_of_spades()),
            decreases cards.len() - i,
        {
            let c = cards[i];
            proof {
                let before = all.take(i as int);
                let after = all.take(i as int + 1);
                assert(after.drop_last() =~= before);
                assert(after =~= before.push(c));
                assert(forall|x: Card| after.contains(x) <==> before.contains(x) || x == c) by {
                    assert forall|x: Card| after.contains(x) implies before.contains(x) || x
                        == c by {
                        let k = choose|k: int| 0 <= k < after.len() && after[k] == x;
                        if k < i {
                            assert(before[k] == x);
                        }
                    }
                    assert forall|x: Card| before.contains(x) || x == c implies after.contains(
                        x,
                    ) by {
                        if x == c {
                            assert(after[i as int] == x);
                        } else {
                            let k = choose|k: int| 0 <= k < before.len() && before[k] == x;
                            assert(after[k] == x);
                        }
                    }
                }
            }
            if c.value == 1 {
                aces += 1;
            }
            if c.suit == 3 {
                spades += 1;
            }
            if c.value == 10 && c.suit == 1 {
                ten = true;
            }
            if c.value == 2 && c.suit == 3 {
                two = true;
            }
            i += 1;
        }
        assert(all.take(i as int) =~= all);
        PlayerScore {
            aces,
            suipi_count: player.suipi_count as usize,
            total_cards: cards.len(),
            total_spades: spades,
            ten_of_diamonds: ten,
            two_of_spades: two,
        }
    }
}

impl FromSpecImpl<&Player> for PlayerScore {
    open spec fn obeys_from_spec() -> bool {
        true
    }

    open spec fn from_spec(player: &Player) -> PlayerScore {
        PlayerScore::of(player@)
    }
}

/// End of game score data
#[derive(Copy, Clone, Debug, PartialEq, Eq, Structural)]
pub struct Score {
    pub dealer_aces: u8,
    pub opponent_aces: u8,
    pub most_cards: Winner,
    pub most_spades: Winner,
    pub suipi_bonus: Winner,
    pub ten_of_diamonds: Winner,
    pub two_of_spades: Winner,
}

impl Default for Score {
    fn default() -> (s: Score)
        ensures
            s == Score::blank(),
    {
        Score {
            dealer_aces: 0,
            opponent_aces: 0,
            most_cards: Winner::Tie,
            most_spades: Winner::Tie,
            suipi_bonus: Winner::Tie,
            ten_of_diamonds: Winner::Tie,
            two_of_spades: Winner::Tie,
        }
    }
}

impl Score {
    /// The score without aces and with every award tied.
    pub open spec fn blank() -> Score {
        Score {
            dealer_aces: 0,
            opponent_aces: 0,
            most_cards: Winner::Tie,
            most_spades: Winner::Tie,
            suipi_bonus: Winner::Tie,
            ten_of_diamonds: Winner::Tie,
            two_of_spades: Winner::Tie,
        }
    }

    /// The five awards in their order: most cards, most spades, the bonus
    /// for clearing the floor, the ten of diamonds, the two of spades.
    pub open spec fn award_list(self) -> Seq<Winner> {
        seq![
            self.most_cards,
            self.most_spades,
            self.suipi_bonus,
            self.ten_of_diamonds,
            self.two_of_spades,
        ]
    }

    /// The sum of the dealer's awarded points and aces.
    pub open spec fn dealer_sum(self) -> int {
        self.most_cards.dealer_points() + self.most_spades.dealer_points()
            + self.suipi_bonus.dealer_points() + self.ten_of_diamonds.dealer_points()
            + self.two_of_spades.dealer_points() + self.dealer_aces
    }

    /// The sum of the opponent's awarded points and aces.
    pub open spec fn opponent_sum(self) -> int {
        self.most_cards.opponent_points() + self.most_spades.opponent_points()
            + self.suipi_bonus.opponent_points() + self.ten_of_diamonds.opponent_points()
            + self.two_of_spades.opponent_points() + self.opponent_aces
    }

    /// The score of two players. Each ace is a point. Most cards are three
    /// points, most spades one, the ten of diamonds two and the two of spades
    /// one. Who cleared the floor more often wins the difference.
    pub open spec fn of_players(dealer: PlayerScore, opponent: PlayerScore) -> Score {
        let bonus = if dealer.suipi_count >= opponent.suipi_count {
            dealer.suipi_count - opponent.suipi_count
        } else {
            opponent.suipi_count - dealer.suipi_count
        };
        Score {
            dealer_aces: (dealer.aces % 256) as u8,
            opponent_aces: (opponent.aces % 256) as u8,
            most_cards: Winner::between(
                dealer.total_cards as int,
                opponent.total_cards as int,
                3,
            ),
            most_spades: Winner::between(
                dealer.total_spades as int,
                opponent.total_spades as int,
                1,
            ),
            suipi_bonus: Winner::between(
                dealer.suipi_count as int,
                opponent.suipi_count as int,
                (bonus % 256) as u8,
            ),
            ten_of_diamonds: Winner::first(dealer.ten_of_diamonds, opponent.ten_of_diamonds, 2),
            two_of_spades: Winner::first(dealer.two_of_spades, opponent.two_of_spades, 1),
        }
    }

    /// The score of a state: that of its two players.
    pub open spec fn of(state: StateView) -> Score {
        Score::of_players(PlayerScore::of(state.dealer), PlayerScore::of(state.opponent))
    }

    /// Get awarded point winners
    pub fn awards(&self) -> (r: [&Winner; 5])
        ensures
            r@.len() == 5,
            forall|i: int| 0 <= i < 5 ==> *(#[trigger] r@[i]) == self.award_list()[i],
    {
        [
            &self.most_cards,
            &self.most_spades,
            &self.suipi_bonus,
            &self.ten_of_diamonds,
            &self.two_of_spades,
        ]
    }

    /// Get an array of dealer awarded points
    pub fn dealer_points(&self) -> (r: [u8; 5])
        ensures
            forall|i: int| 0 <= i < 5 ==> #[trigger] r@[i] == self.award_list()[i].dealer_points(),
    {
        let awards = self.awards();
        let mut scores: [u8; 5] = [0, 0, 0, 0, 0];
        let mut i: usize = 0;
        while i < 5
            invariant
                i <= 5,
                awards@.len() == 5,
                forall|k: int| 0 <= k < 5 ==> *(#[trigger] awards@[k]) == self.award_list()[k],
                forall|k: int|
                    0 <= k < i ==> #[trigger] scores@[k] == self.award_list()[k].dealer_points(),
                forall|k: int| i <= k < 5 ==> #[trigger] scores@[k] == 0,
            decreases 5 - i,
        {
            if let Winner::Dealer(x) = awards[i] {
                scores[i] = *x;
            }
            i += 1;
        }
        scores
    }

    /// Get an array of opponent awarded points
    pub fn opponent_points(&self) -> (r: [u8; 5])
        ensures
            forall|i: int|
                0 <= i < 5 ==> #[trigger] r@[i] == self.award_list()[i].opponent_points(),
    {
        let awards = self.awards();
        let mut scores: [u8; 5] = [0, 0, 0, 0, 0];
        let mut i: usize = 0;
        while i < 5
            invariant
                i <= 5,
                awards@.len() == 5,
                forall|k: int| 0 <= k < 5 ==> *(#[trigger] awards@[k]) == self.award_list()[k],
                forall|k: int|
                    0 <= k < i ==> #[trigger] scores@[k] == self.award_list()[k].opponent_points(),
                forall|k: int| i <= k < 5 ==> #[trigger] scores@[k] == 0,
            decreases 5 - i,
        {
            if let Winner::Opponent(x) = awards[i] {
                scores[i] = *x;
            }
            i += 1;
        }
        scores
    }

    /// Get the total score for the dealer
    pub fn dealer_total(&self) -> (total: u8)
        requires
            self.dealer_sum() <= u8::MAX,
        ensures
            total == self.dealer_sum(),
    {
        let points = self.dealer_points();
        assert(points@[0] == self.award_list()[0].dealer_points());
        assert(points@[1] == self.award_list()[1].dealer_points());
        assert(points@[2] == self.award_list()[2].dealer_points());
        assert(points@[3] == self.award_list()[3].dealer_points());
        assert(points@[4] == self.award_list()[4].dealer_points());
        points[0] + points[1] + points[2] + points[3] + points[4] + self.dealer_aces
    }

    /// Get the total score for the opponent
    pub fn opponent_total(&self) -> (total: u8)
        requires
            self.opponent_sum() <= u8::MAX,
        ensures
            total == self.opponent_sum(),
    {
        let points = self.opponent_points();
        assert(points@[0] == self.award_list()[0].opponent_points());
        assert(points@[1] == self.award_list()[1].opponent_points());
        assert(points@[2] == self.award_list()[2].opponent_points());
        assert(points@[3] == self.award_list()[3].opponent_points());
        assert(points@[4] == self.award_list()[4].opponent_points());
        points[0] + points[1] + points[2] + points[3] + points[4] + self.opponent_aces
    }
}

impl From<&State> for Score {
    fn from(state: &State) -> (score: Score) {
        let opp = PlayerScore::from(&state.opponent);
        let dealer = PlayerScore::from(&state.dealer);
        let bonus = if dealer.suipi_count >= opp.suipi_count {
            dealer.suipi_count - opp.suipi_count
        } else {
            opp.suipi_count - dealer.suipi_count
        };
        Score {
            dealer_aces: (dealer.aces % 256) as u8,
            opponent_aces: (opp.aces % 256) as u8,
            most_cards: Winner::new(dealer.total_cards, opp.total_cards, 3),
            most_spades: Winner::new(dealer.total_spades, opp.total_spades, 1),
            suipi_bonus: Winner::new(dealer.suipi_count, opp.suipi_count, (bonus % 256) as u8),
            ten_of_diamonds: Winner::either(dealer.ten_of_diamonds, opp.ten_of_diamonds, 2),
            two_of_spades: Winner::either(dealer.two_of_spades, opp.two_of_spades, 1),
        }
    }
}

impl FromSpecImpl<&State> for Score {
    open spec fn obeys_from_spec() -> bool {
        true
    }

    open spec fn from_spec(state: &State) -> Score {
        Score::of(state@)
    }
}

} // verus!
