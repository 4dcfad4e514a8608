use playsuipi_core::card::Card;
use playsuipi_core::pile::{decimal_string, Mark, Pile, PileError};

fn build_of(cards: Vec<Card>, value: u8) -> Pile {
    Pile::new(cards, value, Mark::Build)
}

fn group_of(cards: Vec<Card>, value: u8) -> Pile {
    Pile::new(cards, value, Mark::Group)
}

#[test]
fn new_piles_belong_to_nobody() {
    let p = Pile::new(vec![Card::new(2, 0), Card::new(3, 0)], 5, Mark::Build);
    assert_eq!(p.cards, vec![Card::new(2, 0), Card::new(3, 0)]);
    assert_eq!((p.value, p.mark, p.owner), (5, Mark::Build, false));
    let e = Pile::empty();
    assert!(e.cards.is_empty());
    assert_eq!((e.value, e.mark, e.owner), (0, Mark::Empty, false));
    assert_eq!(e, Pile::default());
    let s = Pile::card(12, 3);
    assert_eq!(s, Pile::single(Card::new(12, 3)));
    assert_eq!(s.cards, vec![Card::new(12, 3)]);
    assert_eq!((s.value, s.mark, s.owner), (12, Mark::Single, false));
    assert_eq!(Mark::default(), Mark::Empty);
}

#[test]
fn marks_are_told_apart() {
    let piles = [
        Pile::empty(),
        Pile::card(1, 0),
        build_of(vec![Card::new(1, 0), Card::new(2, 0)], 3),
        group_of(vec![Card::new(3, 0), Card::new(3, 1)], 3),
        Pile::new(vec![Card::new(3, 0), Card::new(3, 1)], 3, Mark::Pair),
    ];
    for (i, p) in piles.iter().enumerate() {
        assert_eq!(p.is_empty(), i == 0);
        assert_eq!(p.is_single(), i == 1);
        assert_eq!(p.is_build(), i == 2);
        assert_eq!(p.is_group(), i == 3);
        assert_eq!(p.is_pair(), i == 4);
        assert_eq!(Pile::buildable(p).is_ok(), i == 1 || i == 2);
        assert_eq!(Pile::groupable(p).is_ok(), i == 1 || i == 2 || i == 3);
        assert_eq!(Pile::pairable(p).is_ok(), i == 1);
    }
    assert_eq!(Pile::buildable(&piles[3]), Err(PileError::InvalidBuildArg));
    assert_eq!(Pile::groupable(&piles[4]), Err(PileError::InvalidGroupArg));
    assert_eq!(Pile::pairable(&piles[2]), Err(PileError::InvalidPairArg));
    assert_eq!(
        Pile::both_singles(&piles[1], &piles[1]),
        Err(PileError::GroupTwoSingles)
    );
    assert_eq!(Pile::both_singles(&piles[1], &piles[2]), Ok(()));
}

#[test]
fn replace_and_take_hand_the_old_pile_out() {
    let mut p = Pile::card(4, 2);
    let mut q = Pile::card(9, 1);
    q.owner = true;
    let old = p.replace(q.clone());
    assert_eq!(old, Pile::card(4, 2));
    assert_eq!(p, q);
    assert!(p.owner);
    let taken = p.take();
    assert_eq!(taken, q);
    assert_eq!(p, Pile::empty());
}

#[test]
fn cards_drains_both_piles() {
    let mut x = build_of(vec![Card::new(1, 0), Card::new(2, 0)], 3);
    let mut y = Pile::card(5, 1);
    let cards = Pile::cards(&mut x, &mut y);
    assert_eq!(cards, vec![Card::new(1, 0), Card::new(2, 0), Card::new(5, 1)]);
    assert!(x.cards.is_empty());
    assert!(y.cards.is_empty());
    assert_eq!((x.value, x.mark), (3, Mark::Build));
    assert_eq!((y.value, y.mark), (5, Mark::Single));
}

#[test]
fn every_build_error_has_its_input() {
    let group = group_of(vec![Card::new(3, 0), Card::new(3, 1)], 3);
    let cases = [
        (group.clone(), Pile::card(1, 0), PileError::InvalidBuildArg),
        (Pile::card(1, 0), group.clone(), PileError::InvalidBuildArg),
        (Pile::empty(), Pile::card(1, 0), PileError::InvalidBuildArg),
        (Pile::card(4, 0), Pile::card(4, 1), PileError::BuildEqualValues),
        (Pile::card(5, 0), Pile::card(6, 1), PileError::BuildHigherThanTen),
        (Pile::card(200, 0), Pile::card(100, 1), PileError::BuildHigherThanTen),
        (Pile::card(250, 0), Pile::card(10, 1), PileError::BuildHigherThanTen),
    ];
    for (x, y, e) in cases {
        let (mut a, mut b) = (x.clone(), y.clone());
        assert_eq!(Pile::build(&mut a, &mut b), Err(e));
        assert_eq!(a, x);
        assert_eq!(b, y);
    }
    // Equal values are fine where one of the piles is a build.
    let mut b = build_of(vec![Card::new(1, 0), Card::new(3, 0)], 4);
    let z = Pile::build(&mut b, &mut Pile::card(4, 1)).unwrap();
    assert_eq!((z.value, z.mark), (8, Mark::Build));
    // Ten is the highest value.
    let z = Pile::build(&mut Pile::card(4, 0), &mut Pile::card(6, 1)).unwrap();
    assert_eq!(z.value, 10);
}

#[test]
fn every_group_error_has_its_input() {
    let build = build_of(vec![Card::new(1, 0), Card::new(2, 0)], 3);
    let pair = Pile::new(vec![Card::new(3, 0), Card::new(3, 1)], 3, Mark::Pair);
    let cases = [
        (pair.clone(), build.clone(), PileError::InvalidGroupArg),
        (build.clone(), Pile::empty(), PileError::InvalidGroupArg),
        (Pile::card(3, 0), Pile::card(3, 1), PileError::GroupTwoSingles),
        (Pile::card(3, 0), Pile::card(4, 1), PileError::GroupTwoSingles),
        (build.clone(), Pile::card(4, 1), PileError::GroupDifferentValues),
    ];
    for (x, y, e) in cases {
        let (mut a, mut b) = (x.clone(), y.clone());
        assert_eq!(Pile::group(&mut a, &mut b), Err(e));
        assert_eq!(a, x);
        assert_eq!(b, y);
    }
    let mut a = build.clone();
    let mut b = Pile::card(3, 2);
    let z = Pile::group(&mut a, &mut b).unwrap();
    assert_eq!(
        z,
        group_of(vec![Card::new(1, 0), Card::new(2, 0), Card::new(3, 2)], 3)
    );
    assert!(a.cards.is_empty() && b.cards.is_empty());
    // A group takes a group.
    let mut more = build_of(vec![Card::new(2, 1), Card::new(1, 1)], 3);
    let w = Pile::group(&mut z.clone(), &mut more).unwrap();
    assert_eq!(w.cards.len(), 5);
    assert_eq!((w.value, w.mark), (3, Mark::Group));
}

#[test]
fn every_pair_error_has_its_input() {
    let build = build_of(vec![Card::new(1, 0), Card::new(2, 0)], 3);
    let cases = [
        (Pile::card(3, 0), build.clone(), PileError::InvalidPairArg),
        (build.clone(), Pile::empty(), PileError::InvalidPairArg),
        (build.clone(), Pile::card(4, 0), PileError::PairDifferentValues),
    ];
    for (x, y, e) in cases {
        let (mut a, mut b) = (x.clone(), y.clone());
        assert_eq!(Pile::pair(&mut a, &mut b), Err(e));
        assert_eq!(a, x);
        assert_eq!(b, y);
    }
    let z = Pile::pair(&mut build.clone(), &mut Pile::card(3, 3)).unwrap();
    assert_eq!(
        z,
        Pile::new(
            vec![Card::new(1, 0), Card::new(2, 0), Card::new(3, 3)],
            3,
            Mark::Pair
        )
    );
}

#[test]
fn piles_and_errors_have_their_text() {
    assert_eq!(Pile::empty().to_string(), "___");
    assert_eq!(Pile::card(10, 1).to_string(), "10♦");
    assert_eq!(
        build_of(vec![Card::new(1, 0), Card::new(4, 0)], 5).to_string(),
        "B{5}"
    );
    assert_eq!(
        group_of(vec![Card::new(10, 0), Card::new(10, 1)], 10).to_string(),
        "G[10]"
    );
    assert_eq!(
        Pile::new(vec![Card::new(2, 0), Card::new(2, 1)], 2, Mark::Pair).to_string(),
        "P<2>"
    );
    assert_eq!(Pile::new(vec![], 213, Mark::Pair).to_string(), "P<213>");
    let texts = [
        (PileError::InvalidBuildArg, "You may not build using a group"),
        (PileError::InvalidGroupArg, "You may not group using a pair"),
        (PileError::InvalidPairArg, "Invalid pair argument"),
        (
            PileError::BuildEqualValues,
            "You may not build two cards with the same value",
        ),
        (
            PileError::BuildHigherThanTen,
            "You may not build a value larger than 10",
        ),
        (
            PileError::GroupDifferentValues,
            "You may not group two cards with different values",
        ),
        (
            PileError::GroupTwoSingles,
            "You may not group two individual cards together",
        ),
        (
            PileError::PairDifferentValues,
            "You may not pair a card with a pile that has a different value",
        ),
    ];
    for (e, text) in texts {
        assert_eq!(e.to_string(), text);
        assert_eq!(e.as_str(), text);
    }
}

#[test]
fn numbers_are_written_in_decimal() {
    for n in 0..=255u8 {
        assert_eq!(decimal_string(n), format!("{}", n));
    }
}
