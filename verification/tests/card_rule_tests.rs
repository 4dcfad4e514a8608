use playsuipi_core::card::{Card, Suit, Value};

#[test]
fn ids_and_cards_go_back_and_forth() {
    for id in 0..52u8 {
        let card = Card::from(id);
        assert_eq!(card, Card::new(id % 13 + 1, id / 13));
        assert!(1 <= card.value && card.value <= 13 && card.suit <= 3);
        assert_eq!(u8::from(card), id);
    }
    for suit in 0..4u8 {
        for value in 1..=13u8 {
            let id = u8::from(Card::new(value, suit));
            assert_eq!(id, 13 * suit + value - 1);
            assert_eq!(Card::from(id), Card::new(value, suit));
        }
    }
}

#[test]
fn ids_from_52_on_are_no_card() {
    for id in 52..=255u8 {
        assert_eq!(Card::from(id), Card::invalid());
    }
    assert_eq!(Card::invalid(), Card::new(0, 0));
    assert_eq!(u8::from(Card::invalid()), 52);
    assert_eq!(u8::from(Card::new(0, 3)), 52);
}

#[test]
fn ids_of_cards_out_of_range_wrap() {
    // 13 * 30 + 5 - 1 = 394 = 256 + 138
    assert_eq!(u8::from(Card::new(5, 30)), 138);
    assert_eq!(u8::from(Card::new(14, 3)), 52);
    assert_eq!(u8::from(Card::new(255, 255)), ((13 * 255 + 255 - 1) % 256) as u8);
}

#[test]
fn values_and_suits_have_their_numbers() {
    let values = [
        Value::Invalid,
        Value::Ace,
        Value::Two,
        Value::Three,
        Value::Four,
        Value::Five,
        Value::Six,
        Value::Seven,
        Value::Eight,
        Value::Nine,
        Value::Ten,
        Value::Jack,
        Value::Queen,
        Value::King,
    ];
    for (rank, value) in values.iter().enumerate() {
        assert_eq!(value.rank(), rank as u8);
        assert_eq!(Value::from_rank(rank as u8), *value);
    }
    assert_eq!(Value::from_rank(14), Value::Invalid);
    assert_eq!(Value::from_rank(255), Value::Invalid);
    let suits = [Suit::Clubs, Suit::Diamonds, Suit::Hearts, Suit::Spades];
    for (index, suit) in suits.iter().enumerate() {
        assert_eq!(suit.index(), index as u8);
    }
    assert_eq!(Card::create(Value::Queen, Suit::Hearts), Card::new(12, 2));
}

#[test]
fn cards_have_their_text() {
    assert_eq!(Card::new(10, 1).to_string(), "10♦");
    assert_eq!(Card::new(9, 0).to_string(), "9♣");
    assert_eq!(Card::new(6, 2).to_string(), "6♥");
    assert_eq!(Card::new(7, 3).to_string(), "7♠");
    assert_eq!(Card::new(8, 3).to_string(), "8♠");
    assert_eq!(Card::invalid().to_string(), "?♣");
}
