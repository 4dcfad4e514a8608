//! The game as text: cards, piles, the floor, a hand and the scores.

use crate::api::{Pile, Scorecard};
use crate::card::{Card, INVALID_ID};
use crate::pile::{decimal, decimal_string};
use vstd::prelude::*;

verus! {

/// The banner that greets a cleared floor.
pub open spec fn banner() -> Seq<char> {
    "   ____     _      _   __\n  / __/_ __(_)__  (_) / /\n _\\ \\/ // / / _ \\/ / /_/ \n/___/\\_,_/_/ .__/_/ (_)  \n          /_/            "@
}

/// The text of a card id: rank and suit, or `__` for no card.
pub open spec fn card_text(card: u8) -> Seq<char> {
    if card >= INVALID_ID {
        "__"@
    } else {
        Card::of_id(card).label()
    }
}

/// The texts of some card ids, in order.
pub open spec fn card_texts(cards: Seq<u8>) -> Seq<Seq<char>> {
    Seq::new(cards.len(), |i: int| card_text(cards[i]))
}

/// The views of some strings, in order.
pub open spec fn texts(items: Seq<String>) -> Seq<Seq<char>> {
    Seq::new(items.len(), |i: int| items[i]@)
}

/// Some texts in a row, with `sep` between every two of them.
pub open spec fn joined(items: Seq<Seq<char>>, sep: Seq<char>) -> Seq<char>
    decreases items.len(),
{
    if items.len() == 0 {
        Seq::empty()
    } else if items.len() == 1 {
        items[0]
    } else {
        joined(items.drop_last(), sep) + sep + items.last()
    }
}

/// The rank that a card id counts for in a group: `id % 13 + 1`.
pub open spec fn rank_of_id(card: u8) -> int {
    card % 13 + 1
}

/// The sum of the ranks of some card ids.
pub open spec fn id_rank_sum(cards: Seq<u8>) -> int
    decreases cards.len(),
{
    if cards.len() == 0 {
        0
    } else {
        id_rank_sum(cards.drop_last()) + rank_of_id(cards.last())
    }
}

/// The cards at the end of `cards` that do not yet make up a component of
/// the value `value`.
pub open spec fn open_run(cards: Seq<u8>, value: int) -> Seq<u8>
    decreases cards.len(),
{
    if cards.len() == 0 {
        Seq::empty()
    } else {
        let run = open_run(cards.drop_last(), value).push(cards.last());
        if id_rank_sum(run) == value {
            Seq::empty()
        } else {
            run
        }
    }
}

/// The components of a group: the cards, read from the left, cut wherever
/// the ranks since the last cut sum to `value`. Cards after the last cut
/// belong to no component.
pub open spec fn components(cards: Seq<u8>, value: int) -> Seq<Seq<u8>>
    decreases cards.len(),
{
    if cards.len() == 0 {
        Seq::empty()
    } else {
        let run = open_run(cards.drop_last(), value).push(cards.last());
        if id_rank_sum(run) == value {
            components(cards.drop_last(), value).push(run)
        } else {
            components(cards.drop_last(), value)
        }
    }
}

/// The text of one component: its card, or its cards with ` + ` between
/// them in braces.
pub open spec fn component_text(cards: Seq<u8>) -> Seq<char> {
    if cards.len() == 1 {
        card_text(cards[0])
    } else {
        "{"@ + joined(card_texts(cards), " + "@) + "}"@
    }
}

/// The texts of some components, in order.
pub open spec fn component_texts(parts: Seq<Seq<u8>>) -> Seq<Seq<char>> {
    Seq::new(parts.len(), |i: int| component_text(parts[i]))
}

/// The text of a group: its components with ` & ` between them.
pub open spec fn group_text(cards: Seq<u8>, value: u8) -> Seq<char> {
    joined(component_texts(components(cards, value as int)), " & "@)
}

/// The card ids of a pile without the places that hold no card.
pub open spec fn held(ids: Seq<u8>) -> Seq<u8>
    decreases ids.len(),
{
    if ids.len() == 0 {
        Seq::empty()
    } else if ids.last() != INVALID_ID {
        held(ids.drop_last()).push(ids.last())
    } else {
        held(ids.drop_last())
    }
}

/// The text of a pile as the player with the flag `turn` sees it: `[]`
/// where it is empty and a card in round brackets where it is a single;
/// else its value and its cards, in braces for a build and as a group in
/// square brackets otherwise, behind a `*` where the pile is the player's.
pub open spec fn pile_text(pile: Pile, turn: bool) -> Seq<char> {
    let cards = held(pile.cards@);
    let owned = if pile.owner == turn {
        "*"@
    } else {
        ""@
    };
    if cards.len() == 0 {
        "[]"@
    } else if cards.len() == 1 {
        "("@ + card_text(cards[0]) + ")"@
    } else if pile.build {
        owned + decimal(pile.value) + "{"@ + joined(card_texts(cards), " + "@) + "}"@
    } else {
        owned + decimal(pile.value) + "["@ + group_text(cards, pile.value) + "]"@
    }
}

/// The name of a hand slot: `1` to `8`.
pub open spec fn hand_name(i: int) -> Seq<char> {
    if i == 0 {
        "1"@
    } else if i == 1 {
        "2"@
    } else if i == 2 {
        "3"@
    } else if i == 3 {
        "4"@
    } else if i == 4 {
        "5"@
    } else if i == 5 {
        "6"@
    } else if i == 6 {
        "7"@
    } else {
        "8"@
    }
}

/// The name of a floor slot: `A` to `M`.
pub open spec fn floor_name(i: int) -> Seq<char> {
    if i == 0 {
        "A"@
    } else if i == 1 {
        "B"@
    } else if i == 2 {
        "C"@
    } else if i == 3 {
        "D"@
    } else if i == 4 {
        "E"@
    } else if i == 5 {
        "F"@
    } else if i == 6 {
        "G"@
    } else if i == 7 {
        "H"@
    } else if i == 8 {
        "I"@
    } else if i == 9 {
        "J"@
    } else if i == 10 {
        "K"@
    } else if i == 11 {
        "L"@
    } else {
        "M"@
    }
}

/// The texts of the slots of a hand: the name of each slot, `=`, and its
/// card in round brackets.
pub open spec fn hand_texts(hand: Seq<u8>) -> Seq<Seq<char>> {
    Seq::new(hand.len(), |i: int| hand_name(i) + "=("@ + card_text(hand[i]) + ")"@)
}

/// The text of a hand: its slots with `, ` between them.
pub open spec fn hand_text(hand: Seq<u8>) -> Seq<char> {
    joined(hand_texts(hand), ", "@)
}

/// The texts of the slots of a floor: the name of each slot, `=`, and its
/// pile.
pub open spec fn floor_texts(floor: Seq<Pile>, turn: bool) -> Seq<Seq<char>> {
    Seq::new(floor.len(), |i: int| floor_name(i) + "="@ + pile_text(floor[i], turn))
}

/// The text of a floor: its slots with `, ` between them.
pub open spec fn floor_text(floor: Seq<Pile>, turn: bool) -> Seq<char> {
    joined(floor_texts(floor, turn), ", "@)
}

/// The row of a scorecard in the table of scores, behind the player's name.
pub open spec fn score_row(card: Scorecard) -> Seq<char> {
    " |    "@ + decimal(card.aces) + " |          "@ + decimal(card.most_cards)
        + " |           "@ + decimal(card.most_spades) + " |   "@ + decimal(card.ten_of_diamonds)
        + " |  "@ + decimal(card.two_of_spades) + " |      "@ + decimal(card.suipi_count)
        + " |  "@ + decimal(card.total) + "\n"@
}

/// The table of the scores of a game.
pub open spec fn scores_text(opp: Scorecard, dealer: Scorecard) -> Seq<char> {
    "[*] Scores:\n\nPlayer | Aces | Most Cards | Most Spades | 10♦ | 2♠ | Suipis | Total\n------ | ---- | ---------- | ----------- | --- | -- | ------ | -----\n"@
        + "Opp   "@ + score_row(opp) + "Dealer"@ + score_row(dealer)
}

/// Put strings in a row with a separator between them
pub fn join(items: &Vec<String>, sep: &str) -> (s: String)
    ensures
        s@ == joined(texts(items@), sep@),
{
    let ghost all = texts(items@);
    let mut s = String::new();
    let mut i: usize = 0;
    assert(all.take(0) =~= Seq::empty());
    while i < items.len()
        invariant
            all == texts(items@),
            i <= items.len(),
            s@ == joined(all.take(i as int), sep@),
        decreases items.len() - i,
    {
        assert(all.take(i as int + 1).drop_last() =~= all.take(i as int));
        if i > 0 {
            s.append(sep);
        } else {
            assert(Seq::<char>::empty() + items@[0]@ =~= items@[0]@);
        }
        s.append(items[i].as_str());
        i += 1;
    }
    assert(all.take(i as int) =~= all);
    s
}

/// Show the banner for a cleared floor
pub fn show_suipi() -> (s: String)
    ensures
        s@ == banner(),
{
    String::from_str(
        "   ____     _      _   __\n  / __/_ __(_)__  (_) / /\n _\\ \\/ // / / _ \\/ / /_/ \n/___/\\_,_/_/ .__/_/ (_)  \n          /_/            ",
    )
}

/// Show a card id as text
pub fn show_card(card: &u8) -> (s: String)
    ensures
        s@ == card_text(*card),
{
    if *card > 51 {
        String::from_str("__")
    } else {
        Card::from(*card).to_string()
    }
}

/// Show each card id of a list as text
fn show_cards(cards: &Vec<u8>) -> (r: Vec<String>)
    ensures
        texts(r@) == card_texts(cards@),
{
    let mut r: Vec<String> = Vec::new();
    let mut i: usize = 0;
    while i < cards.len()
        invariant
            i <= cards.len(),
            r.len() == i,
            forall|k: int| 0 <= k < i ==> (#[trigger] r@[k])@ == card_text(cards@[k]),
        decreases cards.len() - i,
    {
        r.push(show_card(&cards[i]));
        i += 1;
    }
    assert(texts(r@) =~= card_texts(cards@));
    r
}

/// Show one component of a group
fn show_component(cards: &Vec<u8>) -> (s: String)
    ensures
        s@ == component_text(cards@),
{
    if cards.len() == 1 {
        show_card(&cards[0])
    } else {
        let shown = show_cards(cards);
        let inner = join(&shown, " + ");
        String::from_str("{").concat(inner.as_str()).concat("}")
    }
}

/// Show the cards of a group by its components
pub fn show_group(cards: Vec<u8>, value: u8) -> (s: String)
    ensures
        s@ == group_text(cards@, value),
{
    let ghost all = cards@;
    let mut parts: Vec<String> = Vec::new();
    let mut run: Vec<u8> = Vec::new();
    let mut count: u16 = 0;
    let mut i: usize = 0;
    assert(all.take(0) =~= Seq::empty());
    assert(texts(parts@) =~= component_texts(components(all.take(0), value as int)));
    while i < cards.len()
        invariant
            all == cards@,
            i <= cards.len(),
            run@ == open_run(all.take(i as int), value as int),
            texts(parts@) == component_texts(components(all.take(i as int), value as int)),
            count <= 269,
            count == id_rank_sum(run@) || (count > 255 && id_rank_sum(run@) > 255),
        decreases cards.len() - i,
    {
        assert(all.take(i as int + 1).drop_last() =~= all.take(i as int));
        let x = cards[i];
        let ghost before = run@;
        run.push(x);
        assert(run@.drop_last() =~= before);
        if count <= 255 {
            count += (x % 13 + 1) as u16;
        }
        if count == value as u16 {
            let part = show_component(&run);
            let ghost shown = texts(parts@);
            parts.push(part);
            proof {
                let done = components(all.take(i as int), value as int);
                assert(texts(parts@) =~= shown.push(component_text(run@)));
                assert(component_texts(done.push(run@)) =~= component_texts(done).push(
                    component_text(run@),
                ));
            }
            run = Vec::new();
            count = 0;
        }
        i += 1;
    }
    assert(all.take(i as int) =~= all);
    join(&parts, " & ")
}

/// Collect the card ids of a pile that stand for a card
fn held_cards(pile: &Pile) -> (cards: Vec<u8>)
    ensures
        cards@ == held(pile.cards@),
{
    let mut cards: Vec<u8> = Vec::new();
    let mut i: usize = 0;
    assert(pile.cards@.take(0) =~= Seq::empty());
    while i < 20
        invariant
            i <= 20,
            pile.cards@.len() == 20,
            cards@ == held(pile.cards@.take(i as int)),
        decreases 20 - i,
    {
        assert(pile.cards@.take(i as int + 1).drop_last() =~= pile.cards@.take(i as int));
        if pile.cards[i] != 52 {
            cards.push(pile.cards[i]);
        }
        i += 1;
    }
    assert(pile.cards@.take(20) =~= pile.cards@);
    cards
}

/// Show a pile as the player with the flag `turn` sees it
pub fn show_pile(pile: Pile, turn: bool) -> (s: String)
    ensures
        s@ == pile_text(pile, turn),
{
    let cards = held_cards(&pile);
    let owned = if pile.owner == turn {
        "*"
    } else {
        ""
    };
    if cards.len() == 0 {
        String::from_str("[]")
    } else if cards.len() == 1 {
        let card = show_card(&cards[0]);
        String::from_str("(").concat(card.as_str()).concat(")")
    } else if pile.build {
        let value = decimal_string(pile.value);
        let shown = show_cards(&cards);
        let inner = join(&shown, " + ");
        String::from_str(owned).concat(value.as_str()).concat("{").concat(inner.as_str()).concat(
            "}",
        )
    } else {
        let value = decimal_string(pile.value);
        let inner = show_group(cards, pile.value);
        String::from_str(owned).concat(value.as_str()).concat("[").concat(inner.as_str()).concat(
            "]",
        )
    }
}

/// Name a hand slot
fn hand_label(i: usize) -> (s: &'static str)
    ensures
        s@ == hand_name(i as int),
{
    match i {
        0 => "1",
        1 => "2",
        2 => "3",
        3 => "4",
        4 => "5",
        5 => "6",
        6 => "7",
        _ => "8",
    }
}

/// Name a floor slot
fn floor_label(i: usize) -> (s: &'static str)
    ensures
        s@ == floor_name(i as int),
{
    match i {
        0 => "A",
        1 => "B",
        2 => "C",
        3 => "D",
        4 => "E",
        5 => "F",
        6 => "G",
        7 => "H",
        8 => "I",
        9 => "J",
        10 => "K",
        11 => "L",
        _ => "M",
    }
}

/// Show the cards of a hand
pub fn show_hand(hand: [u8; 8]) -> (s: String)
    ensures
        s@ == hand_text(hand@),
{
    let mut slots: Vec<String> = Vec::new();
    let mut i: usize = 0;
    while i < 8
        invariant
            i <= 8,
            hand@.len() == 8,
            slots.len() == i,
            forall|k: int| 0 <= k < i ==> (#[trigger] slots@[k])@ == hand_texts(hand@)[k],
        decreases 8 - i,
    {
        let card = show_card(&hand[i]);
        let slot = String::from_str(hand_label(i)).concat("=(").concat(card.as_str()).concat(")");
        slots.push(slot);
        i += 1;
    }
    assert(texts(slots@) =~= hand_texts(hand@));
    join(&slots, ", ")
}

/// Show the piles of a floor as the player with the flag `turn` sees them
pub fn show_floor(floor: &[Pile; 13], turn: bool) -> (s: String)
    ensures
        s@ == floor_text(floor@, turn),
{
    let mut slots: Vec<String> = Vec::new();
    let mut i: usize = 0;
    while i < 13
        invariant
            i <= 13,
            floor@.len() == 13,
            slots.len() == i,
            forall|k: int| 0 <= k < i ==> (#[trigger] slots@[k])@ == floor_texts(floor@, turn)[k],
        decreases 13 - i,
    {
        let pile = show_pile(floor[i], turn);
        let slot = String::from_str(floor_label(i)).concat("=").concat(pile.as_str());
        slots.push(slot);
        i += 1;
    }
    assert(texts(slots@) =~= floor_texts(floor@, turn));
    join(&slots, ", ")
}

/// Show the row of a scorecard
fn show_score_row(card: &Scorecard) -> (s: String)
    ensures
        s@ == score_row(*card),
{
    let aces = decimal_string(card.aces);
    let most_cards = decimal_string(card.most_cards);
    let most_spades = decimal_string(card.most_spades);
    let ten = decimal_string(card.ten_of_diamonds);
    let two = decimal_string(card.two_of_spades);
    let suipis = decimal_string(card.suipi_count);
    let total = decimal_string(card.total);
    String::from_str(" |    ").concat(aces.as_str()).concat(" |          ").concat(
        most_cards.as_str(),
    ).concat(" |           ").concat(most_spades.as_str()).concat(" |   ").concat(
        ten.as_str(),
    ).concat(" |  ").concat(two.as_str()).concat(" |      ").concat(suipis.as_str()).concat(
        " |  ",
    ).concat(total.as_str()).concat("\n")
}

/// Show the scores of a game as a table
pub fn show_scores(opp: &Scorecard, dealer: &Scorecard) -> (s: String)
    ensures
        s@ == scores_text(*opp, *dealer),
{
    let opp_row = show_score_row(opp);
    let dealer_row = show_score_row(dealer);
    let s = String::from_str(
        "[*] Scores:\n\nPlayer | Aces | Most Cards | Most Spades | 10♦ | 2♠ | Suipis | Total\n------ | ---- | ---------- | ----------- | --- | -- | ------ | -----\n",
    ).concat("Opp   ").concat(opp_row.as_str()).concat("Dealer").concat(dealer_row.as_str());
    assert(s@ =~= scores_text(*opp, *dealer));
    s
}

} // verus!
