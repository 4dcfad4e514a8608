use playsuipi_core::action::{Action, Address, Move, Operation};
use playsuipi_core::card::{Card, Suit, Value};
use playsuipi_core::pile::{Mark, Pile};
use playsuipi_core::rng::Rng;
use playsuipi_core::state::{Player, State};

/// Setup an initial game state
fn setup() -> State {
    let mut rng = Rng::from_seed([0; 32]);
    let mut g = State::default();
    g.init_deck();
    g.shuffle_deck(&mut rng);
    g.deal_hands();
    g.deal_floor();
    g
}

/// Helper for populating a pile with a pair
fn pair(xs: Vec<Card>, v: Value) -> Pile {
    Pile::new(xs, v as u8, Mark::Pair)
}

/// Helper for populating a pile with a group
fn group(xs: Vec<Card>, v: Value) -> Pile {
    Pile::new(xs, v as u8, Mark::Group)
}

/// Helper for populating a pile with a build
fn build(xs: Vec<Card>, v: Value) -> Pile {
    Pile::new(xs, v as u8, Mark::Build)
}

/// Helper for populating a pile with a single
fn single(v: Value, s: Suit) -> Pile {
    Pile::single(Card::create(v, s))
}

/// Helper for getting an empty pile
fn empty() -> Pile {
    Pile::empty()
}

#[test]
fn test_state_setup() {
    let g = setup();

    assert_eq!(
        g.opponent,
        Player::new(vec![
            single(Value::Ace, Suit::Hearts),
            single(Value::King, Suit::Clubs),
            single(Value::Two, Suit::Diamonds),
            single(Value::Ace, Suit::Clubs),
            single(Value::Seven, Suit::Clubs),
            single(Value::Eight, Suit::Spades),
            single(Value::King, Suit::Hearts),
            single(Value::Three, Suit::Spades),
        ])
    );

    assert_eq!(
        g.dealer,
        Player::new(vec![
            single(Value::Ten, Suit::Diamonds),
            single(Value::Four, Suit::Hearts),
            single(Value::Ten, Suit::Spades),
            single(Value::Five, Suit::Spades),
            single(Value::Three, Suit::Diamonds),
            single(Value::Five, Suit::Clubs),
            single(Value::Six, Suit::Spades),
            single(Value::Jack, Suit::Hearts),
        ])
    );

    assert_eq!(
        g.floor,
        [
            single(Value::Four, Suit::Clubs),
            single(Value::Seven, Suit::Diamonds),
            single(Value::Two, Suit::Spades),
            single(Value::Eight, Suit::Clubs),
            empty(),
            empty(),
            empty(),
            empty(),
            empty(),
            empty(),
            empty(),
            empty(),
            empty()
        ]
    );
}

#[test]
fn test_apply_move() {
    let mut g = setup();

    assert!(g
        .apply(Move::new(vec![
            Action::new(Operation::Active, Address::Floor(2)),
            Action::new(Operation::Passive, Address::Hand(2)),
        ]))
        .is_ok());

    assert_eq!(
        g.opponent.hand,
        [
            single(Value::Ace, Suit::Hearts),
            single(Value::King, Suit::Clubs),
            empty(),
            single(Value::Ace, Suit::Clubs),
            single(Value::Seven, Suit::Clubs),
            single(Value::Eight, Suit::Spades),
            single(Value::King, Suit::Hearts),
            single(Value::Three, Suit::Spades),
        ]
    );

    assert_eq!(
        g.floor,
        [
            single(Value::Four, Suit::Clubs),
            single(Value::Seven, Suit::Diamonds),
            single(Value::Eight, Suit::Clubs),
            empty(),
            empty(),
            empty(),
            empty(),
            empty(),
            empty(),
            empty(),
            empty(),
            empty(),
            empty()
        ]
    );

    assert_eq!(
        g.opponent.pairs,
        vec![pair(
            vec![
                Card::create(Value::Two, Suit::Spades),
                Card::create(Value::Two, Suit::Diamonds),
            ],
            Value::Two
        )]
    );
}

#[test]
fn state_test_build_method() {
    let mut g = setup();

    assert!(g.build(Address::Floor(0), Address::Floor(2)).is_ok());

    assert_eq!(
        g.floor,
        [
            build(
                vec![
                    Card::create(Value::Four, Suit::Clubs),
                    Card::create(Value::Two, Suit::Spades),
                ],
                Value::Six
            ),
            single(Value::Seven, Suit::Diamonds),
            empty(),
            single(Value::Eight, Suit::Clubs),
            empty(),
            empty(),
            empty(),
            empty(),
            empty(),
            empty(),
            empty(),
            empty(),
            empty()
        ]
    );
}

#[test]
fn state_test_group_method() {
    let mut g = setup();

    assert!(g.build(Address::Floor(0), Address::Hand(7)).is_ok());
    assert!(g.group(Address::Floor(0), Address::Floor(1)).is_ok());

    assert_eq!(
        g.floor,
        [
            group(
                vec![
                    Card::create(Value::Four, Suit::Clubs),
                    Card::create(Value::Three, Suit::Spades),
                    Card::create(Value::Seven, Suit::Diamonds),
                ],
                Value::Seven
            ),
            empty(),
            single(Value::Two, Suit::Spades),
            single(Value::Eight, Suit::Clubs),
            empty(),
            empty(),
            empty(),
            empty(),
            empty(),
            empty(),
            empty(),
            empty(),
            empty()
        ]
    );
}

#[test]
fn test_pair_method() {
    let mut g = setup();

    assert!(g.build(Address::Floor(0), Address::Hand(7)).is_ok());
    assert!(g.group(Address::Floor(0), Address::Floor(1)).is_ok());
    assert!(g.pair(Address::Floor(0), Address::Hand(4)).is_ok());

    assert_eq!(
        g.floor,
        [
            empty(),
            empty(),
            single(Value::Two, Suit::Spades),
            single(Value::Eight, Suit::Clubs),
            empty(),
            empty(),
            empty(),
            empty(),
            empty(),
            empty(),
            empty(),
            empty(),
            empty()
        ]
    );

    assert_eq!(
        g.opponent.pairs,
        vec![pair(
            vec![
                Card::create(Value::Four, Suit::Clubs),
                Card::create(Value::Three, Suit::Spades),
                Card::create(Value::Seven, Suit::Diamonds),
                Card::create(Value::Seven, Suit::Clubs),
            ],
            Value::Seven
        )]
    );
}

#[test]
fn test_discard_method() {
    let mut g = setup();

    assert!(g.discard(Address::Hand(0)).is_ok());

    assert_eq!(
        g.opponent,
        Player::new(vec![
            empty(),
            single(Value::King, Suit::Clubs),
            single(Value::Two, Suit::Diamonds),
            single(Value::Ace, Suit::Clubs),
            single(Value::Seven, Suit::Clubs),
            single(Value::Eight, Suit::Spades),
            single(Value::King, Suit::Hearts),
            single(Value::Three, Suit::Spades),
        ])
    );

    assert_eq!(
        g.floor,
        [
            single(Value::Four, Suit::Clubs),
            single(Value::Seven, Suit::Diamonds),
            single(Value::Two, Suit::Spades),
            single(Value::Eight, Suit::Clubs),
            single(Value::Ace, Suit::Hearts),
            empty(),
            empty(),
            empty(),
            empty(),
            empty(),
            empty(),
            empty(),
            empty()
        ]
    );
}
