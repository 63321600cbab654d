use vstd::prelude::*;

verus! {

/// The suit of a card. Suits carry no ordering; they are only matched for
/// equality.
#[derive(Clone, Copy, Debug, PartialEq, Eq, Structural)]
pub enum Suite {
    Clubs,
    Diamonds,
    Hearts,
    Spades,
}

impl Suite {
    /// Which suit a single character denotes: 'C', 'D', 'H' or 'S', in
    /// either case.
    pub open spec fn from_char_spec(c: char) -> Option<Suite> {
        if c == 'c' || c == 'C' {
            Some(Suite::Clubs)
        } else if c == 'd' || c == 'D' {
            Some(Suite::Diamonds)
        } else if c == 'h' || c == 'H' {
            Some(Suite::Hearts)
        } else if c == 's' || c == 'S' {
            Some(Suite::Spades)
        } else {
            None
        }
    }

    /// Reads a suit from a single character; `None` when the character
    /// denotes no suit.
    pub fn from_char(ch: char) -> (r: Option<Suite>)
        ensures
            r == Suite::from_char_spec(ch),
    {
        if ch == 'c' || ch == 'C' {
            Some(Suite::Clubs)
        } else if ch == 'd' || ch == 'D' {
            Some(Suite::Diamonds)
        } else if ch == 'h' || ch == 'H' {
            Some(Suite::Hearts)
        } else if ch == 's' || ch == 'S' {
            Some(Suite::Spades)
        } else {
            None
        }
    }
}

} // verus!
