//! Addresses, actions and moves, and the text and byte forms of a move.
//!
//! A move is written as pairs of characters, an operation and an address:
//! `!` or `&` for a passive and `*` or `+` for an active operation, `1` to `8`
//! for a hand slot and `A` to `M` for a floor slot. A text that does not start
//! with `!` or `*` is read as if `!` stood before it. Each pair becomes one
//! byte of six bits: 32 for an active operation, plus 1 to 8 for a hand slot
//! or 10 to 23 for a floor slot.

use vstd::prelude::*;
use vstd::utf8::encode_utf8;

verus! {

/// The character `!`.
pub const BANG: u8 = 33;

/// The character `&`.
pub const AMPERSAND: u8 = 38;

/// The character `*`.
pub const STAR: u8 = 42;

/// The character `+`.
pub const PLUS: u8 = 43;

/// The character `0`.
pub const DIGIT_ZERO: u8 = 48;

/// The character `A`.
pub const LETTER_A: u8 = 65;

/// The bit that marks an active operation.
pub const ACTIVE_BIT: u8 = 32;

/// Byte parsing errors
#[derive(Copy, Clone, Debug, PartialEq, Eq, Structural)]
pub enum ParsingError {
    InvalidByte,
    InvalidAddress,
    InvalidOperationCharacter,
    InvalidAddressCharacter,
    BlankAnnotation,
}

/// Move validation errors
#[derive(Copy, Clone, Debug, PartialEq, Eq, Structural)]
pub enum MoveError {
    InvalidHandAddressCount,
    InvalidHandAddressPosition,
    DuplicateAddress,
}

impl ParsingError {
    /// The text of the error.
    pub open spec fn message(self) -> Seq<char> {
        match self {
            ParsingError::InvalidByte => "Parsing Error: Invalid byte"@,
            ParsingError::InvalidAddress => "Parsing Error: Invalid address"@,
            ParsingError::InvalidOperationCharacter => "Parsing Error: Invalid operation character"@,
            ParsingError::InvalidAddressCharacter => "Parsing Error: Invalid address character"@,
            ParsingError::BlankAnnotation => "Parsing Error: Blank annotation"@,
        }
    }

    /// Show the error as text
    pub fn to_string(&self) -> (s: String)
        ensures
            s@ == self.message(),
    {
        String::from_str(
            match self {
                ParsingError::InvalidByte => "Parsing Error: Invalid byte",
                ParsingError::InvalidAddress => "Parsing Error: Invalid address",
                ParsingError::InvalidOperationCharacter => "Parsing Error: Invalid operation character",
                ParsingError::InvalidAddressCharacter => "Parsing Error: Invalid address character",
                ParsingError::BlankAnnotation => "Parsing Error: Blank annotation",
            },
        )
    }
}

impl MoveError {
    /// The text of the error.
    pub open spec fn message(self) -> Seq<char> {
        match self {
            MoveError::InvalidHandAddressCount => "You must use exactly one card from your hand"@,
            MoveError::InvalidHandAddressPosition => "The card from your hand must come last"@,
            MoveError::DuplicateAddress => "You may not use the same pile twice"@,
        }
    }

    /// Get the text of the error
    pub fn as_str(&self) -> (s: &'static str)
        ensures
            s@ == self.message(),
    {
        match self {
            MoveError::InvalidHandAddressCount => "You must use exactly one card from your hand",
            MoveError::InvalidHandAddressPosition => "The card from your hand must come last",
            MoveError::DuplicateAddress => "You may not use the same pile twice",
        }
    }

    /// Show the error as text
    pub fn to_string(&self) -> (s: String)
        ensures
            s@ == self.message(),
    {
        String::from_str(self.as_str())
    }
}

/// A pile address
#[derive(Copy, Clone, Debug, PartialEq, Eq, Structural)]
pub enum Address {
    /// Address of a pile in your hand
    Hand(u8),
    /// Address of a pile on the floor
    Floor(u8),
}

/// The type of action
#[derive(Copy, Clone, Debug, PartialEq, Eq, Structural)]
pub enum Operation {
    /// Simple card movement between piles
    Passive,
    /// Trigger a change in value or score
    Active,
}

/// A single composable action
#[derive(Copy, Clone, Debug, PartialEq, Eq, Structural)]
pub struct Action {
    pub operation: Operation,
    pub address: Address,
}

/// What one byte decodes to. A byte of more than six bits is invalid; a byte
/// above 32 is active; its low five bits are 1 to 8 for a hand slot, 10 to 23
/// for a floor slot.
pub open spec fn action_of(x: u8) -> Result<Action, ParsingError> {
    let low = (x % 32) as u8;
    let operation = if x > ACTIVE_BIT {
        Operation::Active
    } else {
        Operation::Passive
    };
    if x >= 64 {
        Err(ParsingError::InvalidByte)
    } else if 1 <= low <= 8 {
        Ok(Action { operation, address: Address::Hand((low - 1) as u8) })
    } else if 10 <= low <= 23 {
        Ok(Action { operation, address: Address::Floor((low - 10) as u8) })
    } else {
        Err(ParsingError::InvalidAddress)
    }
}

/// What a run of bytes decodes to: the action of each byte, or the error of
/// the first byte that has one.
pub open spec fn actions_of(bytes: Seq<u8>) -> Result<Seq<Action>, ParsingError>
    decreases bytes.len(),
{
    if bytes.len() == 0 {
        Ok(Seq::empty())
    } else {
        match actions_of(bytes.drop_last()) {
            Err(e) => Err(e),
            Ok(actions) => match action_of(bytes.last()) {
                Err(e) => Err(e),
                Ok(a) => Ok(actions.push(a)),
            },
        }
    }
}

/// The number of hand addresses among some actions.
pub open spec fn hand_count(actions: Seq<Action>) -> nat
    decreases actions.len(),
{
    if actions.len() == 0 {
        0
    } else {
        hand_count(actions.drop_last()) + if actions.last().address is Hand {
            1nat
        } else {
            0nat
        }
    }
}

/// Whether two of the actions name the same address.
pub open spec fn has_duplicate(actions: Seq<Action>) -> bool {
    exists|i: int, j: int|
        0 <= i < j < actions.len() && (#[trigger] actions[i]).address == (
        #[trigger] actions[j]).address
}

/// The shape that a move must have: exactly one hand address, in the last
/// action, and no address twice.
pub open spec fn move_validity(actions: Seq<Action>) -> Result<(), MoveError> {
    if hand_count(actions) != 1 {
        Err(MoveError::InvalidHandAddressCount)
    } else if !(actions.last().address is Hand) {
        Err(MoveError::InvalidHandAddressPosition)
    } else if has_duplicate(actions) {
        Err(MoveError::DuplicateAddress)
    } else {
        Ok(())
    }
}

/// The text of an annotation as it is read: with `!` before it unless it
/// starts with `!` or `*`; an empty text stays empty.
pub open spec fn framed(text: Seq<u8>) -> Seq<u8> {
    if text.len() == 0 || text[0] == BANG || text[0] == STAR {
        text
    } else {
        seq![BANG] + text
    }
}

/// The byte of one pair of characters. A wrong operation character is
/// reported before a wrong address character.
pub open spec fn pair_byte(operation: u8, address: u8) -> Result<u8, ParsingError> {
    let active = operation == STAR || operation == PLUS;
    let base = if active {
        ACTIVE_BIT
    } else {
        0u8
    };
    if !(operation == BANG || operation == AMPERSAND || active) {
        Err(ParsingError::InvalidOperationCharacter)
    } else if 49 <= address <= 56 {
        Ok((base + address - DIGIT_ZERO) as u8)
    } else if 65 <= address <= 77 {
        Ok((base + address - LETTER_A + 10) as u8)
    } else {
        Err(ParsingError::InvalidAddressCharacter)
    }
}

/// The bytes of the first `n` pairs of a framed text, or the error of the
/// first pair that has one.
pub open spec fn pair_bytes(text: Seq<u8>, n: nat) -> Result<Seq<u8>, ParsingError>
    decreases n,
{
    if n == 0 {
        Ok(Seq::empty())
    } else {
        match pair_bytes(text, (n - 1) as nat) {
            Err(e) => Err(e),
            Ok(bytes) => match pair_byte(text[2 * (n - 1)], text[2 * (n - 1) + 1]) {
                Err(e) => Err(e),
                Ok(b) => Ok(bytes.push(b)),
            },
        }
    }
}

/// The action bytes of an annotation text: one for each full pair of
/// characters of the framed text; a character left over at the end is not
/// read. An empty text is blank.
pub open spec fn annotation_bytes(text: Seq<u8>) -> Result<Seq<u8>, ParsingError> {
    if text.len() == 0 {
        Err(ParsingError::BlankAnnotation)
    } else {
        pair_bytes(framed(text), framed(text).len() / 2)
    }
}

/// The move of an annotation text: its action bytes, decoded.
pub open spec fn annotation_actions(text: Seq<u8>) -> Result<Seq<Action>, ParsingError> {
    match annotation_bytes(text) {
        Err(e) => Err(e),
        Ok(bytes) => actions_of(bytes),
    }
}

impl Address {
    /// Whether an address names one of the 8 slots of a hand or of the 13
    /// slots of the floor.
    pub open spec fn is_seat(self) -> bool {
        match self {
            Address::Hand(i) => i < 8,
            Address::Floor(j) => j < 13,
        }
    }
}

/// Whether a byte stands for a hand slot or for one of the 13 floor slots.
pub open spec fn is_seat_byte(b: u8) -> bool {
    let low = b % 32;
    b < 64 && (1 <= low <= 8 || 10 <= low <= 22)
}

/// The bytes that an annotation encodes to all stand for slots.
pub proof fn lemma_pair_bytes_seats(text: Seq<u8>, n: nat)
    requires
        pair_bytes(text, n) is Ok,
    ensures
        pair_bytes(text, n)->Ok_0.len() == n,
        forall|i: int| 0 <= i < n ==> is_seat_byte(#[trigger] pair_bytes(text, n)->Ok_0[i]),
    decreases n,
{
    if n > 0 {
        lemma_pair_bytes_seats(text, (n - 1) as nat);
    }
}

/// Bytes that stand for slots decode to actions on those slots.
pub proof fn lemma_actions_of_seats(bytes: Seq<u8>)
    requires
        forall|i: int| 0 <= i < bytes.len() ==> is_seat_byte(#[trigger] bytes[i]),
    ensures
        actions_of(bytes) is Ok,
        actions_of(bytes)->Ok_0.len() == bytes.len(),
        forall|i: int|
            0 <= i < bytes.len() ==> (#[trigger] actions_of(bytes)->Ok_0[i]).address.is_seat(),
    decreases bytes.len(),
{
    if bytes.len() > 0 {
        let rest = bytes.drop_last();
        assert(forall|i: int| 0 <= i < rest.len() ==> rest[i] == bytes[i]);
        lemma_actions_of_seats(rest);
        assert(is_seat_byte(bytes.last()));
    }
}

/// Every annotation that encodes to bytes decodes to a move, and every
/// address of that move names a slot of a hand of 8 or of a floor of 13.
pub proof fn lemma_annotation_seats(text: Seq<u8>)
    requires
        annotation_bytes(text) is Ok,
    ensures
        annotation_actions(text) is Ok,
        forall|i: int|
            0 <= i < annotation_actions(text)->Ok_0.len() ==> (
            #[trigger] annotation_actions(text)->Ok_0[i]).address.is_seat(),
{
    lemma_pair_bytes_seats(framed(text), framed(text).len() / 2);
    lemma_actions_of_seats(annotation_bytes(text)->Ok_0);
}

impl Action {
    /// Get an action from an operation and an address
    pub fn new(o: Operation, a: Address) -> (action: Action)
        ensures
            action == (Action { operation: o, address: a }),
    {
        Action { operation: o, address: a }
    }

    /// Get an action from a byte
    pub fn from_byte(x: u8) -> (r: Result<Action, ParsingError>)
        ensures
            r == action_of(x),
    {
        let low: u8 = x & 0b00011111;
        assert(low == x % 32) by (bit_vector)
            requires
                low == x & 0b00011111,
        ;
        assert((x & 0b11000000 > 0) == (x >= 64)) by (bit_vector);
        if x & 0b11000000 > 0 {
            // We only use 6 bits per byte
            Err(ParsingError::InvalidByte)
        } else {
            let operation = if x > 0b00100000 {
                Operation::Active
            } else {
                Operation::Passive
            };
            if 1 <= low && low <= 8 {
                Ok(Action::new(operation, Address::Hand(low - 1)))
            } else if 10 <= low && low <= 23 {
                Ok(Action::new(operation, Address::Floor(low - 10)))
            } else {
                Err(ParsingError::InvalidAddress)
            }
        }
    }
}

/// A move comprised of sequential actions
#[derive(Debug, PartialEq, Eq)]
pub struct Move {
    pub actions: Vec<Action>,
}

impl View for Move {
    type V = Seq<Action>;

    open spec fn view(&self) -> Seq<Action> {
        self.actions@
    }
}

/// The view of a parsed move.
pub open spec fn parsed_view(r: Result<Move, ParsingError>) -> Result<Seq<Action>, ParsingError> {
    match r {
        Ok(m) => Ok(m@),
        Err(e) => Err(e),
    }
}

/// The view of encoded bytes.
pub open spec fn encoded_view(r: Result<Vec<u8>, ParsingError>) -> Result<Seq<u8>, ParsingError> {
    match r {
        Ok(v) => Ok(v@),
        Err(e) => Err(e),
    }
}

impl Move {
    /// Get a move from a set of actions
    pub fn new(a: Vec<Action>) -> (m: Move)
        ensures
            m@ == a@,
    {
        Move { actions: a }
    }

    /// Get a move from a set of bytes
    pub fn from_bytes(xs: Vec<u8>) -> (r: Result<Move, ParsingError>)
        ensures
            parsed_view(r) == actions_of(xs@),
    {
        let mut actions: Vec<Action> = Vec::new();
        let mut i: usize = 0;
        assert(xs@.take(0) =~= Seq::empty());
        while i < xs.len()
            invariant
                i <= xs.len(),
                actions_of(xs@.take(i as int)) == Ok::<Seq<Action>, ParsingError>(actions@),
            decreases xs.len() - i,
        {
            assert(xs@.take(i as int + 1).drop_last() =~= xs@.take(i as int));
            match Action::from_byte(xs[i]) {
                Err(e) => {
                    proof {
                        lemma_actions_of_prefix_error(xs@, i as int + 1);
                    }
                    return Err(e);
                },
                Ok(a) => {
                    actions.push(a);
                },
            }
            i += 1;
        }
        assert(xs@.take(i as int) =~= xs@);
        Ok(Move::new(actions))
    }

    /// Validate that the move is legal
    pub fn is_valid(&self) -> (r: Result<(), MoveError>)
        ensures
            r == move_validity(self@),
    {
        let n = self.actions.len();
        let mut hands: usize = 0;
        let mut i: usize = 0;
        assert(self@.take(0) =~= Seq::empty());
        while i < n
            invariant
                n == self.actions.len(),
                i <= n,
                hands == hand_count(self@.take(i as int)),
                hands <= i,
            decreases n - i,
        {
            assert(self@.take(i as int + 1).drop_last() =~= self@.take(i as int));
            if let Address::Hand(_) = self.actions[i].address {
                hands += 1;
            }
            i += 1;
        }
        assert(self@.take(n as int) =~= self@);
        if hands != 1 {
            return Err(MoveError::InvalidHandAddressCount);
        }
        if let Address::Floor(_) = self.actions[n - 1].address {
            return Err(MoveError::InvalidHandAddressPosition);
        }
        let mut j: usize = 1;
        while j < n
            invariant
                n == self.actions.len(),
                hand_count(self@) == 1,
                self@.last().address is Hand,
                1 <= j <= n,
                forall|a: int, b: int|
                    0 <= a < b < j ==> (#[trigger] self@[a]).address != (#[trigger] self@[b]).address,
            decreases n - j,
        {
            let mut k: usize = 0;
            while k < j
                invariant
                    n == self.actions.len(),
                    hand_count(self@) == 1,
                    self@.last().address is Hand,
                    j < n,
                    k <= j,
                    forall|a: int|
                        0 <= a < k ==> (#[trigger] self@[a]).address != self@[j as int].address,
                decreases j - k,
            {
                if self.actions[k].address == self.actions[j].address {
                    assert(has_duplicate(self@));
                    return Err(MoveError::DuplicateAddress);
                }
                k += 1;
            }
            j += 1;
        }
        Ok(())
    }
}

/// Once a prefix of some bytes fails to decode, the whole fails with the same
/// error.
pub proof fn lemma_actions_of_prefix_error(bytes: Seq<u8>, n: int)
    requires
        0 <= n <= bytes.len(),
        actions_of(bytes.take(n)) is Err,
    ensures
        actions_of(bytes) == actions_of(bytes.take(n)),
    decreases bytes.len() - n,
{
    if n < bytes.len() {
        assert(bytes.take(n + 1).drop_last() =~= bytes.take(n));
        lemma_actions_of_prefix_error(bytes, n + 1);
    } else {
        assert(bytes.take(n) =~= bytes);
    }
}

/// Once the pairs up to some count fail to encode, every larger count fails
/// with the same error.
pub proof fn lemma_pair_bytes_prefix_error(text: Seq<u8>, n: nat, m: nat)
    requires
        n <= m,
        pair_bytes(text, n) is Err,
    ensures
        pair_bytes(text, m) == pair_bytes(text, n),
    decreases m - n,
{
    if n < m {
        lemma_pair_bytes_prefix_error(text, n, (m - 1) as nat);
    }
}

/// An annotation representing a move
pub struct Annotation {
    pub value: String,
}

impl Annotation {
    /// The bytes of the annotation's text.
    pub open spec fn text(&self) -> Seq<u8> {
        encode_utf8(self.value@)
    }

    /// Get an Annotation from a string
    pub fn new(v: String) -> (a: Annotation)
        ensures
            a.value@ == v@,
    {
        Annotation { value: v }
    }

    /// Get the value as a vector of bytes
    pub fn bytes(&self) -> (r: Vec<u8>)
        ensures
            r@ == framed(self.text()),
    {
        let text = self.value.as_str().as_bytes();
        let mut r: Vec<u8> = Vec::new();
        if text.len() > 0 && text[0] != BANG && text[0] != STAR {
            r.push(BANG);
        }
        let mut i: usize = 0;
        while i < text.len()
            invariant
                i <= text.len(),
                r@ + text@.skip(i as int) == framed(text@),
            decreases text.len() - i,
        {
            assert(text@.skip(i as int) =~= seq![text@[i as int]] + text@.skip(i as int + 1));
            assert(r@.push(text@[i as int]) + text@.skip(i as int + 1) =~= r@ + text@.skip(
                i as int,
            ));
            r.push(text[i]);
            i += 1;
        }
        assert(r@ + text@.skip(i as int) =~= r@);
        r
    }

    /// Convert an annotation to action bytes
    pub fn to_bytes(&self) -> (r: Result<Vec<u8>, ParsingError>)
        ensures
            encoded_view(r) == annotation_bytes(self.text()),
    {
        let text = self.bytes();
        if text.len() == 0 {
            return Err(ParsingError::BlankAnnotation);
        }
        let n = text.len() / 2;
        let mut bytes: Vec<u8> = Vec::new();
        let mut i: usize = 0;
        while i < n
            invariant
                n == text.len() / 2,
                text@ == framed(self.text()),
                self.text().len() > 0,
                i <= n,
                pair_bytes(text@, i as nat) == Ok::<Seq<u8>, ParsingError>(bytes@),
            decreases n - i,
        {
            match Annotation::encode_pair(text[2 * i], text[2 * i + 1]) {
                Err(e) => {
                    proof {
                        lemma_pair_bytes_prefix_error(text@, (i + 1) as nat, n as nat);
                    }
                    return Err(e);
                },
                Ok(b) => {
                    bytes.push(b);
                },
            }
            i += 1;
        }
        Ok(bytes)
    }

    /// Encode one operation character and one address character
    fn encode_pair(operation: u8, address: u8) -> (r: Result<u8, ParsingError>)
        ensures
            r == pair_byte(operation, address),
    {
        let base: u8 = if operation == BANG || operation == AMPERSAND {
            0
        } else if operation == STAR || operation == PLUS {
            ACTIVE_BIT
        } else {
            return Err(ParsingError::InvalidOperationCharacter);
        };
        if 49 <= address && address <= 56 {
            Ok(base + (address - DIGIT_ZERO))
        } else if 65 <= address && address <= 77 {
            Ok(base + (address - LETTER_A + 10))
        } else {
            Err(ParsingError::InvalidAddressCharacter)
        }
    }

    /// Convert an annotation to a move
    pub fn to_move(&self) -> (r: Result<Move, ParsingError>)
        ensures
            parsed_view(r) == annotation_actions(self.text()),
    {
        match self.to_bytes() {
            Err(e) => Err(e),
            Ok(bytes) => Move::from_bytes(bytes),
        }
    }
}

} // verus!
