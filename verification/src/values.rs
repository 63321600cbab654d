use vstd::prelude::*;

verus! {

/// The rank of a card, ordered by declaration: Two < Three < ... < King < Ace.
#[derive(Clone, Copy, Debug, PartialEq, Eq, Structural, PartialOrd)]
pub enum Value {
    Two,
    Three,
    Four,
    Five,
    Six,
    Seven,
    Eight,
    Nine,
    Ten,
    Jack,
    Queen,
    King,
    Ace,
}

impl Value {
    /// Position of this rank in the declaration order: Two is 0, Ace is 12.
    pub open spec fn ordinal(self) -> int {
        match self {
            Value::Two => 0,
            Value::Three => 1,
            Value::Four => 2,
            Value::Five => 3,
            Value::Six => 4,
            Value::Seven => 5,
            Value::Eight => 6,
            Value::Nine => 7,
            Value::Ten => 8,
            Value::Jack => 9,
            Value::Queen => 10,
            Value::King => 11,
            Value::Ace => 12,
        }
    }

    /// The rank standing at position `i` of the declaration order.
    pub open spec fn of_ordinal(i: int) -> Value {
        if i == 0 {
            Value::Two
        } else if i == 1 {
            Value::Three
        } else if i == 2 {
            Value::Four
        } else if i == 3 {
            Value::Five
        } else if i == 4 {
            Value::Six
        } else if i == 5 {
            Value::Seven
        } else if i == 6 {
            Value::Eight
        } else if i == 7 {
            Value::Nine
        } else if i == 8 {
            Value::Ten
        } else if i == 9 {
            Value::Jack
        } else if i == 10 {
            Value::Queen
        } else if i == 11 {
            Value::King
        } else {
            Value::Ace
        }
    }

    /// Position of this rank, as a machine integer usable for indexing.
    pub fn position(self) -> (i: usize)
        ensures
            i == self.ordinal(),
    {
        match self {
            Value::Two => 0,
            Value::Three => 1,
            Value::Four => 2,
            Value::Five => 3,
            Value::Six => 4,
            Value::Seven => 5,
            Value::Eight => 6,
            Value::Nine => 7,
            Value::Ten => 8,
            Value::Jack => 9,
            Value::Queen => 10,
            Value::King => 11,
            Value::Ace => 12,
        }
    }

    /// The rank standing at position `i` of the declaration order.
    pub fn from_position(i: usize) -> (v: Value)
        requires
            i < 13,
        ensures
            v == Value::of_ordinal(i as int),
    {
        if i == 0 {
            Value::Two
        } else if i == 1 {
            Value::Three
        } else if i == 2 {
            Value::Four
        } else if i == 3 {
            Value::Five
        } else if i == 4 {
            Value::Six
        } else if i == 5 {
            Value::Seven
        } else if i == 6 {
            Value::Eight
        } else if i == 7 {
            Value::Nine
        } else if i == 8 {
            Value::Ten
        } else if i == 9 {
            Value::Jack
        } else if i == 10 {
            Value::Queen
        } else if i == 11 {
            Value::King
        } else {
            Value::Ace
        }
    }

    /// Which rank a single character denotes: '2'..'9' name the matching
    /// numeric rank, 'J', 'Q', 'K' and 'A' (either case) name the face ranks
    /// and the Ace. Ten has no single-character form.
    pub open spec fn from_char_spec(c: char) -> Option<Value> {
        if c == '2' {
            Some(Value::Two)
        } else if c == '3' {
            Some(Value::Three)
        } else if c == '4' {
            Some(Value::Four)
        } else if c == '5' {
            Some(Value::Five)
        } else if c == '6' {
            Some(Value::Six)
        } else if c == '7' {
            Some(Value::Seven)
        } else if c == '8' {
            Some(Value::Eight)
        } else if c == '9' {
            Some(Value::Nine)
        } else if c == 'J' || c == 'j' {
            Some(Value::Jack)
        } else if c == 'Q' || c == 'q' {
            Some(Value::Queen)
        } else if c == 'K' || c == 'k' {
            Some(Value::King)
        } else if c == 'A' || c == 'a' {
            Some(Value::Ace)
        } else {
            None
        }
    }

    /// Which rank a whole token denotes: the two-character token "10" is Ten;
    /// any other non-empty token is read by its first character alone.
    pub open spec fn from_token_spec(s: Seq<char>) -> Option<Value> {
        if s.len() == 0 {
            None
        } else if s.len() == 2 && s[0] == '1' && s[1] == '0' {
            Some(Value::Ten)
        } else {
            Value::from_char_spec(s[0])
        }
    }

    /// Reads a rank from a single character; `None` when the character
    /// denotes no rank.
    pub fn from_char(ch: char) -> (r: Option<Value>)
        ensures
            r == Value::from_char_spec(ch),
    {
        if ch == '2' {
            Some(Value::Two)
        } else if ch == '3' {
            Some(Value::Three)
        } else if ch == '4' {
            Some(Value::Four)
        } else if ch == '5' {
            Some(Value::Five)
        } else if ch == '6' {
            Some(Value::Six)
        } else if ch == '7' {
            Some(Value::Seven)
        } else if ch == '8' {
            Some(Value::Eight)
        } else if ch == '9' {
            Some(Value::Nine)
        } else if ch == 'J' || ch == 'j' {
            Some(Value::Jack)
        } else if ch == 'Q' || ch == 'q' {
            Some(Value::Queen)
        } else if ch == 'K' || ch == 'k' {
            Some(Value::King)
        } else if ch == 'A' || ch == 'a' {
            Some(Value::Ace)
        } else {
            None
        }
    }

    /// Reads a rank from a token: "10" is Ten, any other non-empty token is
    /// read by its first character; `None` for the empty token.
    pub fn from_string(slice: &str) -> (r: Option<Value>)
        ensures
            r == Value::from_token_spec(slice@),
    {
        let n = slice.unicode_len();
        if n == 0 {
            None
        } else if n == 2 && slice.get_char(0) == '1' && slice.get_char(1) == '0' {
            Some(Value::Ten)
        } else {
            Value::from_char(slice.get_char(0))
        }
    }
}

/// Ranks sit at pairwise distinct positions, and every position below 13
/// names the rank that sits there.
pub proof fn lemma_ordinal_of_ordinal(v: Value)
    ensures
        0 <= v.ordinal() < 13,
        Value::of_ordinal(v.ordinal()) == v,
{
}

/// Each position below 13 is the position of the rank that sits there.
pub proof fn lemma_of_ordinal_ordinal(i: int)
    requires
        0 <= i < 13,
    ensures
        Value::of_ordinal(i).ordinal() == i,
{
}

/// Distinct ranks sit at distinct positions.
pub proof fn lemma_ordinal_injective(a: Value, b: Value)
    requires
        a.ordinal() == b.ordinal(),
    ensures
        a == b,
{
    lemma_ordinal_of_ordinal(a);
    lemma_ordinal_of_ordinal(b);
}

} // verus!
