use vstd::prelude::*;

use crate::suites::Suite;
use crate::values::Value;

verus! {

/// A playing card: a suit paired with a rank.
#[derive(Clone, Copy, Debug, PartialEq, Eq, Structural)]
pub struct Card {
    pub suite: Suite,
    pub value: Value,
}

impl Card {
    /// Builds the card of the given suit and rank.
    pub fn new(suite: Suite, value: Value) -> (c: Card)
        ensures
            c == (Card { suite, value }),
    {
        Card { suite, value }
    }
}

impl PartialOrd for Card {
    /// Cards are ordered by rank alone: two cards of equal rank compare
    /// equal whatever their suits, so this ordering must not be used to
    /// break suit ties.
    fn partial_cmp(&self, other: &Self) -> (r: Option<core::cmp::Ordering>) {
        let a = self.value.position();
        let b = other.value.position();
        if a < b {
            Some(core::cmp::Ordering::Less)
        } else if a == b {
            Some(core::cmp::Ordering::Equal)
        } else {
            Some(core::cmp::Ordering::Greater)
        }
    }
}

impl vstd::std_specs::cmp::PartialOrdSpecImpl for Card {
    open spec fn obeys_partial_cmp_spec() -> bool {
        true
    }

    open spec fn partial_cmp_spec(&self, other: &Self) -> Option<core::cmp::Ordering> {
        if self.value.ordinal() < other.value.ordinal() {
            Some(core::cmp::Ordering::Less)
        } else if self.value.ordinal() == other.value.ordinal() {
            Some(core::cmp::Ordering::Equal)
        } else {
            Some(core::cmp::Ordering::Greater)
        }
    }
}

/// What a two-character token denotes: one character must name a rank and
/// the other a suit, in either order. The rank is taken from the first
/// character that names one, the suit from the first that names one.
pub open spec fn two_char_card_spec(s: Seq<char>) -> Option<Card> {
    if s.len() != 2 {
        None
    } else {
        let value = if Value::from_char_spec(s[0]) is Some {
            Value::from_char_spec(s[0])
        } else {
            Value::from_char_spec(s[1])
        };
        let suite = if Suite::from_char_spec(s[0]) is Some {
            Suite::from_char_spec(s[0])
        } else {
            Suite::from_char_spec(s[1])
        };
        if value is Some && suite is Some {
            Some(Card { suite: suite->0, value: value->0 })
        } else {
            None
        }
    }
}

/// What a three-character token denotes: the rank Ten, written "10", with a
/// suit character before or after it.
pub open spec fn ten_token_spec(s: Seq<char>) -> Option<Card> {
    if s.len() != 3 {
        None
    } else if s[0] == '1' && s[1] == '0' && Suite::from_char_spec(s[2]) is Some {
        Some(Card { suite: Suite::from_char_spec(s[2])->0, value: Value::Ten })
    } else if Suite::from_char_spec(s[0]) is Some && s[1] == '1' && s[2] == '0' {
        Some(Card { suite: Suite::from_char_spec(s[0])->0, value: Value::Ten })
    } else {
        None
    }
}

/// What a token denotes as a card: the two-character form where it applies,
/// else the three-character Ten form, else nothing.
pub open spec fn card_of_token_spec(s: Seq<char>) -> Option<Card> {
    if two_char_card_spec(s) is Some {
        two_char_card_spec(s)
    } else {
        ten_token_spec(s)
    }
}

/// Reads a card from the two characters of a two-character token.
fn card_from_two_chars(c0: char, c1: char) -> (r: Option<Card>)
    ensures
        r == two_char_card_spec(seq![c0, c1]),
{
    let value = match Value::from_char(c0) {
        Some(v) => Some(v),
        None => Value::from_char(c1),
    };
    let suite = match Suite::from_char(c0) {
        Some(s) => Some(s),
        None => Suite::from_char(c1),
    };
    match (suite, value) {
        (Some(suite), Some(value)) => Some(Card { suite, value }),
        _ => None,
    }
}

/// Reads a Ten from the three characters of a three-character token.
fn card_from_ten_chars(c0: char, c1: char, c2: char) -> (r: Option<Card>)
    ensures
        r == ten_token_spec(seq![c0, c1, c2]),
{
    if c0 == '1' && c1 == '0' {
        match Suite::from_char(c2) {
            Some(suite) => Some(Card { suite, value: Value::Ten }),
            None => None,
        }
    } else if c1 == '1' && c2 == '0' {
        match Suite::from_char(c0) {
            Some(suite) => Some(Card { suite, value: Value::Ten }),
            None => None,
        }
    } else {
        None
    }
}

/// Reads a card from a token in the two-character form: rank and suit, one
/// character each, in either order.
pub fn from_two_char_card(string: &str) -> (r: Option<Card>)
    ensures
        r == two_char_card_spec(string@),
{
    if string.unicode_len() != 2 {
        None
    } else {
        let r = card_from_two_chars(string.get_char(0), string.get_char(1));
        proof {
            assert(string@ =~= seq![string@[0], string@[1]]);
        }
        r
    }
}

/// Reads a card from a token in the three-character form: the rank Ten as
/// "10", with a suit character before or after it.
pub fn from_ten_string(string: &str) -> (r: Option<Card>)
    ensures
        r == ten_token_spec(string@),
{
    if string.unicode_len() != 3 {
        None
    } else {
        let r = card_from_ten_chars(string.get_char(0), string.get_char(1), string.get_char(2));
        proof {
            assert(string@ =~= seq![string@[0], string@[1], string@[2]]);
        }
        r
    }
}

/// A token character: an ASCII letter or digit. Every other character
/// separates tokens.
pub open spec fn is_token_char_spec(c: char) -> bool {
    ('0' <= c && c <= '9') || ('A' <= c && c <= 'Z') || ('a' <= c && c <= 'z')
}

/// Decides whether a character belongs to a token.
fn is_token_char(c: char) -> (r: bool)
    ensures
        r == is_token_char_spec(c),
{
    ('0' <= c && c <= '9') || ('A' <= c && c <= 'Z') || ('a' <= c && c <= 'z')
}

/// The alphanumeric tokens of `s`, in order: the maximal runs of token
/// characters, with the separating characters discarded.
pub open spec fn split_tokens(s: Seq<char>) -> Seq<Seq<char>>
    decreases s.len(),
{
    if s.len() == 0 {
        Seq::empty()
    } else {
        let rest = split_tokens(s.drop_first());
        if !is_token_char_spec(s[0]) {
            rest
        } else if s.len() >= 2 && is_token_char_spec(s[1]) {
            seq![seq![s[0]] + rest[0]] + rest.drop_first()
        } else {
            seq![seq![s[0]]] + rest
        }
    }
}

/// The cards denoted by a sequence of tokens, in order; tokens that denote
/// no card contribute nothing.
pub open spec fn cards_of_tokens(toks: Seq<Seq<char>>) -> Seq<Card>
    decreases toks.len(),
{
    if toks.len() == 0 {
        Seq::empty()
    } else {
        let head = match card_of_token_spec(toks[0]) {
            Some(c) => seq![c],
            None => Seq::empty(),
        };
        head + cards_of_tokens(toks.drop_first())
    }
}

/// The cards denoted by one token, as a sequence of zero or one cards.
pub open spec fn cards_of_token(t: Seq<char>) -> Seq<Card> {
    match card_of_token_spec(t) {
        Some(c) => seq![c],
        None => Seq::empty(),
    }
}

/// The cards denoted by a whole text: its alphanumeric tokens, each parsed
/// as a card, the failures dropped.
pub open spec fn cards_in_text(text: Seq<char>) -> Seq<Card> {
    cards_of_tokens(split_tokens(text))
}

/// A text headed by a separator has the tokens of its tail.
proof fn lemma_split_sep_head(s: Seq<char>)
    requires
        s.len() > 0,
        !is_token_char_spec(s[0]),
    ensures
        split_tokens(s) == split_tokens(s.drop_first()),
{
}

/// When the first `k` characters of `s` are token characters and the run
/// ends there (the text ends, or a separator follows), the tokens of `s`
/// are that run followed by the tokens of the rest.
proof fn lemma_split_head_run(s: Seq<char>, k: int)
    requires
        1 <= k <= s.len(),
        forall|j: int| 0 <= j < k ==> is_token_char_spec(s[j]),
        k == s.len() || !is_token_char_spec(s[k]),
    ensures
        split_tokens(s) =~= seq![s.take(k)] + split_tokens(s.skip(k)),
    decreases k,
{
    let t = s.drop_first();
    if k == 1 {
        assert(s.take(1) =~= seq![s[0]]);
        if s.len() == 1 {
            assert(s.skip(1) =~= Seq::<char>::empty());
        } else {
            assert(s.skip(1) =~= t);
        }
    } else {
        assert(forall|j: int| 0 <= j < k - 1 ==> is_token_char_spec(#[trigger] t[j]));
        lemma_split_head_run(t, k - 1);
        assert(seq![s[0]] + t.take(k - 1) =~= s.take(k));
        assert(t.skip(k - 1) =~= s.skip(k));
        let rest = split_tokens(t);
        assert(rest[0] == t.take(k - 1));
        assert(rest.drop_first() =~= split_tokens(s.skip(k)));
    }
}

/// Parsing distributes over splitting off the first token.
proof fn lemma_cards_of_tokens_cons(t: Seq<char>, rest: Seq<Seq<char>>)
    ensures
        cards_of_tokens(seq![t] + rest) =~= cards_of_token(t) + cards_of_tokens(rest),
{
    assert((seq![t] + rest)[0] == t);
    assert((seq![t] + rest).drop_first() =~= rest);
}

/// Collects every card named in `data`: the text is split on every
/// non-alphanumeric character, and each resulting token that reads as a
/// card (in the two- or three-character form) contributes one card, in
/// order, duplicates kept. Unreadable tokens are dropped silently.
pub fn collect_cards(data: &str) -> (cards: Vec<Card>)
    ensures
        cards@ == cards_in_text(data@),
{
    let ghost text = data@;
    let n = data.unicode_len();
    let mut cards: Vec<Card> = Vec::new();
    let mut token: Vec<char> = Vec::new();
    let mut i: usize = 0;
    proof {
        assert(text.skip(0) =~= text);
    }
    while i < n
        invariant
            n == text.len(),
            text == data@,
            i <= n,
            token@.len() <= i,
            token@ =~= text.subrange(i - token@.len(), i as int),
            forall|j: int| i - token@.len() <= j < i ==> is_token_char_spec(#[trigger] text[j]),
            cards_in_text(text) =~= cards@ + cards_of_tokens(
                split_tokens(text.skip(i - token@.len())),
            ),
        decreases n - i,
    {
        let c = data.get_char(i);
        if is_token_char(c) {
            token.push(c);
            proof {
                assert(token@ =~= text.subrange(i + 1 - token@.len(), i + 1));
            }
        } else {
            let ghost start = i - token@.len();
            if token.len() > 0 {
                proof {
                    let s1 = text.skip(start);
                    let k = token@.len() as int;
                    assert(forall|j: int| 0 <= j < k ==> s1[j] == text[start + j]);
                    assert(forall|j: int| 0 <= j < k ==> is_token_char_spec(#[trigger] s1[j]));
                    assert(s1[k] == text[i as int]);
                    lemma_split_head_run(s1, k);
                    assert(s1.take(k) =~= token@);
                    assert(s1.skip(k) =~= text.skip(i as int));
                    lemma_cards_of_tokens_cons(token@, split_tokens(text.skip(i as int)));
                }
                match reify_slice(&token) {
                    Some(card) => cards.push(card),
                    None => {},
                }
                token = Vec::new();
            }
            proof {
                let s2 = text.skip(i as int);
                assert(s2[0] == text[i as int]);
                lemma_split_sep_head(s2);
                assert(s2.drop_first() =~= text.skip(i + 1));
            }
        }
        i += 1;
    }
    if token.len() > 0 {
        proof {
            let start = i - token@.len();
            let s1 = text.skip(start);
            let k = token@.len() as int;
            assert(forall|j: int| 0 <= j < k ==> s1[j] == text[start + j]);
            assert(forall|j: int| 0 <= j < k ==> is_token_char_spec(#[trigger] s1[j]));
            lemma_split_head_run(s1, k);
            assert(s1.take(k) =~= token@);
            assert(s1.skip(k) =~= Seq::<char>::empty());
            lemma_cards_of_tokens_cons(token@, split_tokens(Seq::<char>::empty()));
        }
        match reify_slice(&token) {
            Some(card) => cards.push(card),
            None => {},
        }
    }
    proof {
        assert(cards@ =~= cards_in_text(text));
    }
    cards
}

/// Rank characters name no suit, and suit characters name no rank, so the
/// two readings of a two-character token never compete.
pub proof fn lemma_rank_suit_chars_disjoint(c: char)
    ensures
        Value::from_char_spec(c) is Some ==> Suite::from_char_spec(c) is None,
        Suite::from_char_spec(c) is Some ==> Value::from_char_spec(c) is None,
{
}

/// Any text made of exactly one rank character and one suit character, in
/// either order, names exactly one card: the one with that rank and that
/// suit.
pub proof fn lemma_two_char_token_parses(cv: char, cs: char)
    requires
        Value::from_char_spec(cv) is Some,
        Suite::from_char_spec(cs) is Some,
    ensures
        cards_in_text(seq![cv, cs]) =~= seq![
            (Card { suite: Suite::from_char_spec(cs)->0, value: Value::from_char_spec(cv)->0 }),
        ],
        cards_in_text(seq![cs, cv]) =~= seq![
            (Card { suite: Suite::from_char_spec(cs)->0, value: Value::from_char_spec(cv)->0 }),
        ],
{
    lemma_rank_suit_chars_disjoint(cv);
    lemma_rank_suit_chars_disjoint(cs);
    let a = seq![cv, cs];
    let b = seq![cs, cv];
    assert(is_token_char_spec(cv));
    assert(is_token_char_spec(cs));
    lemma_split_head_run(a, 2);
    lemma_split_head_run(b, 2);
    assert(a.take(2) =~= a);
    assert(b.take(2) =~= b);
    assert(a.skip(2) =~= Seq::<char>::empty());
    assert(b.skip(2) =~= Seq::<char>::empty());
    lemma_cards_of_tokens_cons(a, Seq::empty());
    lemma_cards_of_tokens_cons(b, Seq::empty());
    assert(seq![a] + Seq::<Seq<char>>::empty() =~= seq![a]);
    assert(seq![b] + Seq::<Seq<char>>::empty() =~= seq![b]);
    assert(cards_of_token(a) + Seq::<Card>::empty() =~= cards_of_token(a));
    assert(cards_of_token(b) + Seq::<Card>::empty() =~= cards_of_token(b));
}

/// The canonical characters of a rank: "10" for Ten, the single upper-case
/// rank character for every other rank.
pub open spec fn rank_chars(v: Value) -> Seq<char> {
    match v {
        Value::Two => seq!['2'],
        Value::Three => seq!['3'],
        Value::Four => seq!['4'],
        Value::Five => seq!['5'],
        Value::Six => seq!['6'],
        Value::Seven => seq!['7'],
        Value::Eight => seq!['8'],
        Value::Nine => seq!['9'],
        Value::Ten => seq!['1', '0'],
        Value::Jack => seq!['J'],
        Value::Queen => seq!['Q'],
        Value::King => seq!['K'],
        Value::Ace => seq!['A'],
    }
}

/// The canonical character of a suit.
pub open spec fn suite_char(s: Suite) -> char {
    match s {
        Suite::Clubs => 'C',
        Suite::Diamonds => 'D',
        Suite::Hearts => 'H',
        Suite::Spades => 'S',
    }
}

/// The canonical token of a card: its rank's canonical characters followed
/// by its suit character: two characters for every rank but Ten, which
/// needs the three-character form.
pub open spec fn canonical_token(c: Card) -> Seq<char> {
    rank_chars(c.value) + seq![suite_char(c.suite)]
}

/// Round trip: parsing the canonical token of any card recovers exactly
/// that card, for every rank and suit combination.
pub proof fn lemma_token_round_trip(card: Card)
    ensures
        cards_in_text(canonical_token(card)) =~= seq![card],
{
    let t = canonical_token(card);
    let cs = suite_char(card.suite);
    assert(Suite::from_char_spec(cs) == Some(card.suite));
    if card.value == Value::Ten {
        assert(t =~= seq!['1', '0', cs]);
        assert(is_token_char_spec(cs));
        lemma_split_head_run(t, 3);
        assert(t.take(3) =~= t);
        assert(t.skip(3) =~= Seq::<char>::empty());
        lemma_cards_of_tokens_cons(t, Seq::empty());
        assert(seq![t] + Seq::<Seq<char>>::empty() =~= seq![t]);
        assert(two_char_card_spec(t) is None);
        assert(ten_token_spec(t) == Some(card)) by {
            lemma_rank_suit_chars_disjoint(cs);
        }
        assert(cards_of_token(t) + Seq::<Card>::empty() =~= cards_of_token(t));
    } else {
        let cv = rank_chars(card.value)[0];
        assert(Value::from_char_spec(cv) == Some(card.value));
        assert(t =~= seq![cv, cs]);
        lemma_two_char_token_parses(cv, cs);
    }
}

/// Reads a card from one token, trying the two-character form first and the
/// three-character Ten form second.
fn reify_slice(token: &Vec<char>) -> (r: Option<Card>)
    ensures
        r == card_of_token_spec(token@),
{
    if token.len() == 2 {
        let r = card_from_two_chars(token[0], token[1]);
        proof {
            assert(token@ =~= seq![token@[0], token@[1]]);
        }
        r
    } else if token.len() == 3 {
        let r = card_from_ten_chars(token[0], token[1], token[2]);
        proof {
            assert(token@ =~= seq![token@[0], token@[1], token@[2]]);
        }
        r
    } else {
        None
    }
}

} // verus!

