use playsuipi_core::card::{Card, Suit, Value};


#[test]
fn test_card_from() {
    // Ace of Clubs is id 0
    let id = 0; // 13 * 0 + 0
    assert_eq!(Card::from(id), Card::create(Value::Ace, Suit::Clubs));

    // Two of Spades is id 40
    let id = 40; // 13 * 3 + 1
    assert_eq!(Card::from(id), Card::create(Value::Two, Suit::Spades));

    // Ten of Diamonds is id 22
    let id = 22; // 13 * 1 + 9
    assert_eq!(Card::from(id), Card::create(Value::Ten, Suit::Diamonds));

    // Seven of Clubs is id 6
    let id = 6; // 13 * 0 + 6
    assert_eq!(Card::from(id), Card::create(Value::Seven, Suit::Clubs));

    // Queen of Hearts is id 37
    let id = 37; // 13 * 2 + 11
    assert_eq!(Card::from(id), Card::create(Value::Queen, Suit::Hearts));

    // King of Spades is id 51
    let id = 51; // 13 * 3 + 12
    assert_eq!(Card::from(id), Card::create(Value::King, Suit::Spades));

    // 52 and above are invalid
    let id = 52; // Invalid!
    assert_eq!(Card::from(id), Card::create(Value::Invalid, Suit::Clubs));
}

#[test]
fn test_card_to_id() {
    // King of Clubs is id 12
    let id = 12; // 13 * 0 + 12
    assert_eq!(u8::from(Card::create(Value::King, Suit::Clubs)), id);

    // Five of Diamonds is id 17
    let id = 17; // 13 * 1 + 4
    assert_eq!(u8::from(Card::create(Value::Five, Suit::Diamonds)), id);

    // Eight of Hearts is id 33
    let id = 33; // 13 * 2 + 7
    assert_eq!(u8::from(Card::create(Value::Eight, Suit::Hearts)), id);

    // Jack of Spades is id 49
    let id = 49; // 13 * 3 + 10
    assert_eq!(u8::from(Card::create(Value::Jack, Suit::Spades)), id);

    // Invalid is id 52
    let id = 52;
    assert_eq!(u8::from(Card::create(Value::Invalid, Suit::Clubs)), id);
}

#[test]
fn test_card_to_string() {
    assert_eq!(Card::create(Value::Ace, Suit::Spades).to_string(), "A♠");
    assert_eq!(Card::create(Value::King, Suit::Hearts).to_string(), "K♥");
    assert_eq!(Card::create(Value::Queen, Suit::Diamonds).to_string(), "Q♦");
    assert_eq!(Card::create(Value::Jack, Suit::Clubs).to_string(), "J♣");
    assert_eq!(Card::create(Value::Two, Suit::Spades).to_string(), "2♠");
    assert_eq!(Card::create(Value::Three, Suit::Hearts).to_string(), "3♥");
    assert_eq!(Card::create(Value::Four, Suit::Diamonds).to_string(), "4♦");
    assert_eq!(Card::create(Value::Five, Suit::Clubs).to_string(), "5♣");
}
