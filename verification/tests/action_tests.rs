use playsuipi_core::action::{
    Action, Address, Annotation, Move, MoveError, Operation, ParsingError,
};


const A: u8 = 32;
const P: u8 = 0;

#[test]
fn test_move_from_bytes() {
    assert_eq!(
        Move::from_bytes(vec![P + 1]),
        Ok(Move::new(vec![Action::new(
            Operation::Passive,
            Address::Hand(0)
        ),]))
    );

    assert_eq!(
        Move::from_bytes(vec![A + 1, P + 10]),
        Ok(Move::new(vec![
            Action::new(Operation::Active, Address::Hand(0)),
            Action::new(Operation::Passive, Address::Floor(0)),
        ]))
    );

    assert_eq!(
        Move::from_bytes(vec![P + 10, A + 11, A + 12, P + 13, A + 14, P + 1]),
        Ok(Move::new(vec![
            Action::new(Operation::Passive, Address::Floor(0)),
            Action::new(Operation::Active, Address::Floor(1)),
            Action::new(Operation::Active, Address::Floor(2)),
            Action::new(Operation::Passive, Address::Floor(3)),
            Action::new(Operation::Active, Address::Floor(4)),
            Action::new(Operation::Passive, Address::Hand(0)),
        ]))
    );
}

#[test]
fn test_move_from_bytes_error() {
    assert_eq!(
        Move::from_bytes(vec![P + 10, 64]),
        Err(ParsingError::InvalidByte)
    );

    assert_eq!(
        Move::from_bytes(vec![100, 101, 102]),
        Err(ParsingError::InvalidByte)
    );
}

#[test]
fn test_annotation_to_bytes() {
    assert_eq!(
        Annotation::new(String::from("!1")).to_bytes(),
        Ok(vec![P + 1])
    );

    assert_eq!(
        Annotation::new(String::from("*1&A")).to_bytes(),
        Ok(vec![A + 1, P + 10])
    );

    assert_eq!(
        Annotation::new(String::from("A+B+C&D+E&1")).to_bytes(),
        Ok(vec![P + 10, A + 11, A + 12, P + 13, A + 14, P + 1])
    );
}

#[test]
fn test_annotation_to_bytes_error() {
    assert_eq!(
        Annotation::new(String::from("!1A1")).to_bytes(),
        Err(ParsingError::InvalidOperationCharacter),
    );

    assert_eq!(
        Annotation::new(String::from("!1&!")).to_bytes(),
        Err(ParsingError::InvalidAddressCharacter),
    );

    assert_eq!(
        Annotation::new(String::from("?")).to_bytes(),
        Err(ParsingError::InvalidAddressCharacter),
    );

    assert_eq!(
        Annotation::new(String::from("")).to_bytes(),
        Err(ParsingError::BlankAnnotation),
    );
}

#[test]
fn test_annotation_to_move() {
    assert_eq!(
        Annotation::new(String::from("!1")).to_move(),
        Ok(Move::new(vec![Action::new(
            Operation::Passive,
            Address::Hand(0)
        )]))
    );

    assert_eq!(
        Annotation::new(String::from("*1&A")).to_move(),
        Ok(Move::new(vec![
            Action::new(Operation::Active, Address::Hand(0)),
            Action::new(Operation::Passive, Address::Floor(0)),
        ]))
    );

    assert_eq!(
        Annotation::new(String::from("A+B+C&D+E&1")).to_move(),
        Ok(Move::new(vec![
            Action::new(Operation::Passive, Address::Floor(0)),
            Action::new(Operation::Active, Address::Floor(1)),
            Action::new(Operation::Active, Address::Floor(2)),
            Action::new(Operation::Passive, Address::Floor(3)),
            Action::new(Operation::Active, Address::Floor(4)),
            Action::new(Operation::Passive, Address::Hand(0)),
        ]))
    );
}

#[test]
fn test_move_validation() {
    assert!(Move::new(vec![
        Action::new(Operation::Passive, Address::Floor(0)),
        Action::new(Operation::Passive, Address::Hand(0)),
    ])
    .is_valid()
    .is_ok());

    assert_eq!(
        Move::new(vec![
            Action::new(Operation::Passive, Address::Floor(0)),
            Action::new(Operation::Passive, Address::Hand(0)),
            Action::new(Operation::Passive, Address::Hand(1)),
        ])
        .is_valid(),
        Err(MoveError::InvalidHandAddressCount)
    );

    assert_eq!(
        Move::new(vec![
            Action::new(Operation::Passive, Address::Floor(0)),
            Action::new(Operation::Passive, Address::Floor(1)),
        ])
        .is_valid(),
        Err(MoveError::InvalidHandAddressCount)
    );

    assert_eq!(
        Move::new(vec![
            Action::new(Operation::Passive, Address::Hand(0)),
            Action::new(Operation::Passive, Address::Floor(0)),
        ])
        .is_valid(),
        Err(MoveError::InvalidHandAddressPosition)
    );
}
