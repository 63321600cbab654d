use vstd::prelude::*;

use crate::cards::Card;
use crate::values::{lemma_of_ordinal_ordinal, lemma_ordinal_injective, lemma_ordinal_of_ordinal,
    Value};

verus! {

/// A poker hand category, from weakest to strongest.
#[derive(Clone, Copy, Debug, PartialEq, Eq, Structural, PartialOrd)]
pub enum Hand {
    HighCard,
    OnePair,
    TwoPair,
    ThreeOfAKind,
    Straight,
    Flush,
    FullHouse,
    FourOfAKind,
    StraightFlush,
    FiveOfAKind,
}

/// How many cards of `s` have the rank `v`.
pub open spec fn count_matching(s: Seq<Card>, v: Value) -> nat
    decreases s.len(),
{
    if s.len() == 0 {
        0
    } else {
        count_matching(s.drop_last(), v) + if s.last().value == v {
            1nat
        } else {
            0nat
        }
    }
}

/// No rank occurs more often than there are cards.
pub proof fn lemma_count_matching_le_len(s: Seq<Card>, v: Value)
    ensures
        count_matching(s, v) <= s.len(),
    decreases s.len(),
{
    if s.len() > 0 {
        lemma_count_matching_le_len(s.drop_last(), v);
    }
}

/// The greatest tally among the ranks at positions below `k`.
pub open spec fn max_count_upto(s: Seq<Card>, k: int) -> nat
    decreases k,
{
    if k <= 0 {
        0
    } else {
        let c = count_matching(s, Value::of_ordinal(k - 1));
        let m = max_count_upto(s, k - 1);
        if c > m {
            c
        } else {
            m
        }
    }
}

/// The greatest tally among all thirteen ranks: how often the most
/// frequent rank of `s` occurs.
pub open spec fn max_dup_count(s: Seq<Card>) -> nat {
    max_count_upto(s, 13)
}

/// How many ranks at positions below `k` occur exactly twice in `s`.
pub open spec fn pairs_upto(s: Seq<Card>, k: int) -> nat
    decreases k,
{
    if k <= 0 {
        0
    } else {
        pairs_upto(s, k - 1) + if count_matching(s, Value::of_ordinal(k - 1)) == 2 {
            1nat
        } else {
            0nat
        }
    }
}

/// How many distinct ranks occur exactly twice in `s`.
pub open spec fn pairs_count(s: Seq<Card>) -> nat {
    pairs_upto(s, 13)
}

/// No rank's tally exceeds the greatest tally.
pub proof fn lemma_count_le_max(s: Seq<Card>, v: Value)
    ensures
        count_matching(s, v) <= max_dup_count(s),
{
    lemma_ordinal_of_ordinal(v);
    lemma_max_upto_covers(s, v.ordinal(), 13);
}

/// The maximum over the first `k` positions bounds the tally at any
/// position below `k`.
proof fn lemma_max_upto_covers(s: Seq<Card>, j: int, k: int)
    requires
        0 <= j < k,
    ensures
        count_matching(s, Value::of_ordinal(j)) <= max_count_upto(s, k),
    decreases k,
{
    if j < k - 1 {
        lemma_max_upto_covers(s, j, k - 1);
    }
}

/// The per-rank tallies of a set of cards: a mapping from rank to
/// occurrence count, held as thirteen counters in rank order.
pub struct ValueCounts {
    counts: Vec<usize>,
}

/// How many of the first `k` counters record exactly two.
pub open spec fn counter_pairs_upto(counts: Seq<usize>, k: int) -> nat
    decreases k,
{
    if k <= 0 {
        0
    } else {
        counter_pairs_upto(counts, k - 1) + if counts[k - 1] == 2 {
            1nat
        } else {
            0nat
        }
    }
}

impl ValueCounts {
    /// The counters cover exactly the thirteen ranks.
    pub closed spec fn wf(&self) -> bool {
        self.counts@.len() == 13
    }

    /// The tally recorded for rank `v`.
    pub closed spec fn count_of(&self, v: Value) -> nat {
        self.counts@[v.ordinal()] as nat
    }

    /// How many ranks this tally records exactly twice.
    pub closed spec fn pairs(&self) -> nat {
        counter_pairs_upto(self.counts@, 13)
    }

    /// Reads the tally recorded for rank `v`.
    pub fn count(&self, v: Value) -> (n: usize)
        requires
            self.wf(),
        ensures
            n == self.count_of(v),
    {
        proof {
            lemma_ordinal_of_ordinal(v);
        }
        self.counts[v.position()]
    }
}

/// Tallies how often each rank occurs across `cards`.
pub fn card_counts(cards: &[Card]) -> (tally: ValueCounts)
    ensures
        tally.wf(),
        forall|v: Value| #[trigger] tally.count_of(v) == count_matching(cards@, v),
{
    let mut counts: Vec<usize> = Vec::new();
    let mut k: usize = 0;
    while k < 13
        invariant
            k <= 13,
            counts@.len() == k,
            forall|j: int| 0 <= j < k ==> counts@[j] == 0,
        decreases 13 - k,
    {
        counts.push(0);
        k += 1;
    }
    proof {
        assert forall|v: Value| counts@[v.ordinal()] == count_matching(
            cards@.subrange(0, 0),
            v,
        ) by {
            lemma_ordinal_of_ordinal(v);
            assert(cards@.subrange(0, 0) =~= Seq::<Card>::empty());
        }
    }
    let mut i: usize = 0;
    while i < cards.len()
        invariant
            counts@.len() == 13,
            i <= cards@.len(),
            forall|v: Value| counts@[v.ordinal()] == count_matching(
                cards@.subrange(0, i as int),
                v,
            ),
        decreases cards@.len() - i,
    {
        let v = cards[i].value;
        proof {
            lemma_ordinal_of_ordinal(v);
            lemma_count_matching_le_len(cards@.subrange(0, i as int), v);
        }
        let idx = v.position();
        let cnt = counts[idx];
        counts.set(idx, cnt + 1);
        proof {
            let pre = cards@.subrange(0, i as int);
            let post = cards@.subrange(0, i + 1);
            assert(post.drop_last() =~= pre);
            assert(post.last() == cards@[i as int]);
            assert forall|w: Value| counts@[w.ordinal()] == count_matching(post, w) by {
                lemma_ordinal_of_ordinal(w);
                if w.ordinal() == v.ordinal() {
                    lemma_ordinal_injective(w, v);
                } else {
                    assert(counts@[w.ordinal()] == count_matching(pre, w));
                }
            }
        }
        i += 1;
    }
    proof {
        assert(cards@.subrange(0, cards@.len() as int) =~= cards@);
    }
    ValueCounts { counts }
}

/// The counters of a tally agree with the per-rank counts of the cards
/// they were drawn from, so both record the same number of pairs.
proof fn lemma_pairs_agree(s: Seq<Card>, tally: ValueCounts, k: int)
    requires
        0 <= k <= 13,
        tally.wf(),
        forall|v: Value| #[trigger] tally.count_of(v) == count_matching(s, v),
    ensures
        counter_pairs_upto(tally.counts@, k) == pairs_upto(s, k),
    decreases k,
{
    if k > 0 {
        lemma_pairs_agree(s, tally, k - 1);
        let v = Value::of_ordinal(k - 1);
        lemma_of_ordinal_ordinal(k - 1);
        assert(tally.count_of(v) == count_matching(s, v));
    }
}

/// Tells a single pair from two pairs by the number of ranks recorded
/// exactly twice. Any other number of pairs is a caller contract
/// violation and is excluded.
fn distinguish_pairs_from_two_pairs(counts: &ValueCounts) -> (h: Hand)
    requires
        counts.wf(),
        counts.pairs() == 1 || counts.pairs() == 2,
    ensures
        h == if counts.pairs() == 2 {
            Hand::TwoPair
        } else {
            Hand::OnePair
        },
{
    let mut number_of_pairs: usize = 0;
    let mut k: usize = 0;
    while k < 13
        invariant
            counts.wf(),
            k <= 13,
            number_of_pairs == counter_pairs_upto(counts.counts@, k as int),
            number_of_pairs <= k,
        decreases 13 - k,
    {
        proof {
            lemma_of_ordinal_ordinal(k as int);
        }
        let c = counts.count(Value::from_position(k));
        if c == 2 {
            number_of_pairs += 1;
        }
        k += 1;
    }
    if number_of_pairs == 2 {
        Hand::TwoPair
    } else {
        Hand::OnePair
    }
}

/// The hand category determined by duplicate ranks alone: five, four or
/// three of a kind, or one or two pairs; `None` when no rank repeats (or
/// when repetition exceeds five of a kind, which the duplicate table does
/// not name).
pub open spec fn dup_hand_spec(s: Seq<Card>) -> Option<Hand> {
    if max_dup_count(s) == 5 {
        Some(Hand::FiveOfAKind)
    } else if max_dup_count(s) == 4 {
        Some(Hand::FourOfAKind)
    } else if max_dup_count(s) == 3 {
        Some(Hand::ThreeOfAKind)
    } else if max_dup_count(s) == 2 {
        Some(
            if pairs_count(s) == 2 {
                Hand::TwoPair
            } else {
                Hand::OnePair
            },
        )
    } else {
        None
    }
}

/// Classifies `cards` by duplicate ranks alone.
fn get_hands_made_of_duplicates(cards: &[Card]) -> (r: Option<Hand>)
    requires
        max_dup_count(cards@) == 2 ==> pairs_count(cards@) == 1 || pairs_count(cards@) == 2,
    ensures
        r == dup_hand_spec(cards@),
{
    let tally = card_counts(cards);
    let mut m: usize = 0;
    let mut k: usize = 0;
    while k < 13
        invariant
            tally.wf(),
            forall|v: Value| #[trigger] tally.count_of(v) == count_matching(cards@, v),
            k <= 13,
            m == max_count_upto(cards@, k as int),
        decreases 13 - k,
    {
        proof {
            lemma_of_ordinal_ordinal(k as int);
        }
        let c = tally.count(Value::from_position(k));
        if c > m {
            m = c;
        }
        k += 1;
    }
    if m == 5 {
        Some(Hand::FiveOfAKind)
    } else if m == 4 {
        Some(Hand::FourOfAKind)
    } else if m == 3 {
        Some(Hand::ThreeOfAKind)
    } else if m == 2 {
        proof {
            lemma_pairs_agree(cards@, tally, 13);
        }
        Some(distinguish_pairs_from_two_pairs(&tally))
    } else {
        None
    }
}

/// Whether a card marks position `pos` of the straight mask: each card
/// marks the position one above its rank's ordinal, and an Ace also marks
/// position 0, the low-Ace slot.
pub open spec fn marks_position(c: Card, pos: int) -> bool {
    pos == c.value.ordinal() + 1 || (c.value == Value::Ace && pos == 0)
}

/// How many cards of `s` mark position `pos`.
pub open spec fn mark_count(s: Seq<Card>, pos: int) -> nat
    decreases s.len(),
{
    if s.len() == 0 {
        0
    } else {
        mark_count(s.drop_last(), pos) + if marks_position(s.last(), pos) {
            1nat
        } else {
            0nat
        }
    }
}

/// Whether position `pos` of the straight mask is set. A position toggles
/// with each card that marks it, so it ends up set when marked an odd
/// number of times; a rank appearing twice cancels itself out.
pub open spec fn mask_bit(s: Seq<Card>, pos: int) -> bool {
    mark_count(s, pos) % 2 == 1
}

/// The fourteen-position straight mask of `s`: position 0 is the low-Ace
/// slot, positions 1 through 13 stand for Two through Ace.
pub open spec fn straight_mask(s: Seq<Card>) -> Seq<bool> {
    Seq::new(14, |pos: int| mask_bit(s, pos))
}

/// The length of the run of set bits ending just before index `k`.
pub open spec fn run_len_ending(bits: Seq<bool>, k: int) -> nat
    decreases k,
{
    if k <= 0 {
        0
    } else if !bits[k - 1] {
        0
    } else {
        1 + run_len_ending(bits, k - 1)
    }
}

/// The longest run of consecutive set bits among the first `k` bits.
pub open spec fn max_run_upto(bits: Seq<bool>, k: int) -> nat
    decreases k,
{
    if k <= 0 {
        0
    } else {
        let r = run_len_ending(bits, k);
        let m = max_run_upto(bits, k - 1);
        if r > m {
            r
        } else {
            m
        }
    }
}

/// Whether `s` holds a straight: five consecutive positions of the
/// straight mask are set. The duplicated Ace mark recognises both the
/// ace-low and the ace-high straight. Meaningful only for hands without
/// repeated ranks, where no toggle cancels; the classifier reaches it
/// only then.
pub open spec fn straight_spec(s: Seq<Card>) -> bool {
    max_run_upto(straight_mask(s), 14) >= 5
}

/// Whether mask position `p` stands for a rank held by `s`: position 0
/// stands for an Ace (the low slot), position `p` of 1 through 13 for the
/// rank at ordinal `p - 1`. Spoken of hands where no rank repeats.
pub open spec fn position_present(s: Seq<Card>, p: int) -> bool {
    if p == 0 {
        count_matching(s, Value::Ace) == 1
    } else {
        count_matching(s, Value::of_ordinal(p - 1)) == 1
    }
}

/// Each mask position is marked once per card of the rank it stands for:
/// position 0 once per Ace, position `p` of 1 through 13 once per card
/// whose rank sits at ordinal `p - 1`.
proof fn lemma_mark_count_is_rank_count(s: Seq<Card>, p: int)
    requires
        0 <= p < 14,
    ensures
        p == 0 ==> mark_count(s, p) == count_matching(s, Value::Ace),
        p >= 1 ==> mark_count(s, p) == count_matching(s, Value::of_ordinal(p - 1)),
    decreases s.len(),
{
    if s.len() > 0 {
        lemma_mark_count_is_rank_count(s.drop_last(), p);
        let c = s.last();
        if p >= 1 {
            lemma_ordinal_of_ordinal(c.value);
            lemma_of_ordinal_ordinal(p - 1);
        }
    }
}

/// A run of at least `n` set bits ends before `e` only when the `n` bits
/// just before `e` are all set, which also places `e` at `n` or beyond.
proof fn lemma_run_covers(bits: Seq<bool>, e: int, n: int)
    requires
        0 <= n <= run_len_ending(bits, e),
    ensures
        n <= e || n == 0,
        forall|j: int| e - n <= j < e ==> bits[j],
    decreases n,
{
    if n > 0 {
        lemma_run_covers(bits, e - 1, n - 1);
    }
}

/// When the `n` bits just before `e` are all set, a run of at least `n`
/// set bits ends before `e`.
proof fn lemma_window_run(bits: Seq<bool>, e: int, n: int)
    requires
        0 <= n <= e,
        forall|j: int| e - n <= j < e ==> bits[j],
    ensures
        run_len_ending(bits, e) >= n,
    decreases n,
{
    if n > 0 {
        lemma_window_run(bits, e - 1, n - 1);
    }
}

/// The longest run over the first `k` bits bounds the run ending before
/// any `e` up to `k`.
proof fn lemma_max_run_ge_run(bits: Seq<bool>, e: int, k: int)
    requires
        0 <= e <= k,
    ensures
        run_len_ending(bits, e) <= max_run_upto(bits, k),
    decreases k - e,
{
    if e < k {
        lemma_max_run_ge_run(bits, e, k - 1);
    }
}

/// When the longest run over the first `k` bits reaches `n`, some run
/// ending within the first `k` bits reaches `n`.
proof fn lemma_max_run_exists(bits: Seq<bool>, k: int, n: int)
    requires
        1 <= n <= max_run_upto(bits, k),
    ensures
        exists|e: int| 0 <= e <= k && run_len_ending(bits, e) >= n,
    decreases k,
{
    if k > 0 {
        if run_len_ending(bits, k) >= n {
            assert(0 <= k <= k && run_len_ending(bits, k) >= n);
        } else {
            lemma_max_run_exists(bits, k - 1, n);
        }
    }
}

/// Whether the five consecutive mask positions starting at `lo` all stand
/// for held ranks.
pub open spec fn straight_window(s: Seq<Card>, lo: int) -> bool {
    forall|p: int| lo <= p < lo + 5 ==> #[trigger] position_present(s, p)
}

/// For a hand in which no rank repeats, straight detection succeeds
/// exactly when five consecutive mask positions stand for held ranks:
/// five consecutive ranks, counting an Ace both below Two and above King.
pub proof fn lemma_straight_characterisation(s: Seq<Card>)
    requires
        max_dup_count(s) <= 1,
    ensures
        straight_spec(s) <==> exists|lo: int|
            0 <= lo && lo + 5 <= 14 && #[trigger] straight_window(s, lo),
{
    assert forall|v: Value| count_matching(s, v) <= 1 by {
        lemma_count_le_max(s, v);
    }
    let bits = straight_mask(s);
    assert forall|p: int| 0 <= p < 14 implies bits[p] == position_present(s, p) by {
        lemma_mark_count_is_rank_count(s, p);
        if p == 0 {
            assert(count_matching(s, Value::Ace) <= 1);
        } else {
            assert(count_matching(s, Value::of_ordinal(p - 1)) <= 1);
        }
    }
    if straight_spec(s) {
        lemma_max_run_exists(bits, 14, 5);
        let e = choose|e: int| 0 <= e <= 14 && run_len_ending(bits, e) >= 5;
        lemma_run_covers(bits, e, 5);
        let lo = e - 5;
        assert(straight_window(s, lo));
        assert(0 <= lo && lo + 5 <= 14 && straight_window(s, lo));
    }
    if exists|lo: int| 0 <= lo && lo + 5 <= 14 && #[trigger] straight_window(s, lo) {
        let lo = choose|lo: int| 0 <= lo && lo + 5 <= 14 && #[trigger] straight_window(s, lo);
        assert(forall|j: int| lo <= j < lo + 5 ==> bits[j]);
        lemma_window_run(bits, lo + 5, 5);
        lemma_max_run_ge_run(bits, lo + 5, 14);
    }
}

/// Scans the mask once and returns the length of its longest run of
/// consecutive set bits.
fn max_count_of_adjacent_set_bits(bits: &Vec<bool>) -> (r: usize)
    ensures
        r == max_run_upto(bits@, bits@.len() as int),
{
    let mut best: usize = 0;
    let mut cur: usize = 0;
    let mut i: usize = 0;
    while i < bits.len()
        invariant
            i <= bits@.len(),
            cur <= i,
            best <= i,
            cur == run_len_ending(bits@, i as int),
            best == max_run_upto(bits@, i as int),
        decreases bits@.len() - i,
    {
        if bits[i] {
            cur += 1;
            if cur > best {
                best = cur;
            }
        } else {
            cur = 0;
        }
        i += 1;
    }
    best
}

/// Builds the straight mask of `cards` by toggling one position per card
/// (two for an Ace) and reports a straight when five consecutive
/// positions are set.
fn discern_straight_hand(cards: &[Card]) -> (r: Option<Hand>)
    ensures
        r == if straight_spec(cards@) {
            Some(Hand::Straight)
        } else {
            None::<Hand>
        },
{
    let mut bits: Vec<bool> = Vec::new();
    let mut k: usize = 0;
    while k < 14
        invariant
            k <= 14,
            bits@.len() == k,
            forall|p: int| 0 <= p < k ==> !bits@[p],
        decreases 14 - k,
    {
        bits.push(false);
        k += 1;
    }
    proof {
        assert forall|p: int| 0 <= p < 14 implies bits@[p] == mask_bit(
            cards@.subrange(0, 0),
            p,
        ) by {
            assert(cards@.subrange(0, 0) =~= Seq::<Card>::empty());
        }
    }
    let mut i: usize = 0;
    while i < cards.len()
        invariant
            bits@.len() == 14,
            i <= cards@.len(),
            forall|p: int| 0 <= p < 14 ==> bits@[p] == mask_bit(cards@.subrange(0, i as int), p),
        decreases cards@.len() - i,
    {
        let v = cards[i].value;
        proof {
            lemma_ordinal_of_ordinal(v);
        }
        let adjusted_position = v.position() + 1;
        let was_set = bits[adjusted_position];
        bits.set(adjusted_position, !was_set);
        if v.position() == 12 {
            let low_was_set = bits[0];
            bits.set(0, !low_was_set);
        }
        proof {
            let pre = cards@.subrange(0, i as int);
            let post = cards@.subrange(0, i + 1);
            assert(post.drop_last() =~= pre);
            assert(post.last() == cards@[i as int]);
            if v.ordinal() == 12 {
                lemma_ordinal_injective(v, Value::Ace);
            }
            assert forall|p: int| 0 <= p < 14 implies bits@[p] == mask_bit(post, p) by {
                assert(mark_count(post, p) == mark_count(pre, p) + if marks_position(
                    cards@[i as int],
                    p,
                ) {
                    1nat
                } else {
                    0nat
                });
            }
        }
        i += 1;
    }
    proof {
        assert(cards@.subrange(0, cards@.len() as int) =~= cards@);
        assert(bits@ =~= straight_mask(cards@));
    }
    let runs = max_count_of_adjacent_set_bits(&bits);
    if runs >= 5 {
        Some(Hand::Straight)
    } else {
        None
    }
}

/// The category of a hand, decided in order: five, four or three of a
/// kind by the most frequent rank; a pair or two pairs when the most
/// frequent rank occurs twice; else a straight when the mask scan finds
/// five consecutive positions; else high card. Three of a kind beside a
/// pair is reported as three of a kind: the duplicate table does not
/// name a full house.
pub open spec fn hand_spec(s: Seq<Card>) -> Hand {
    if max_dup_count(s) == 5 {
        Hand::FiveOfAKind
    } else if max_dup_count(s) == 4 {
        Hand::FourOfAKind
    } else if max_dup_count(s) == 3 {
        Hand::ThreeOfAKind
    } else if max_dup_count(s) == 2 {
        if pairs_count(s) == 2 {
            Hand::TwoPair
        } else {
            Hand::OnePair
        }
    } else if straight_spec(s) {
        Hand::Straight
    } else {
        Hand::HighCard
    }
}

/// Classifies a hand of cards into its category. The hand must not be
/// empty, and when its most frequent rank occurs exactly twice there must
/// be one or two ranks occurring twice; anything else is a caller
/// contract violation.
pub fn determine_high_hand(cards: &[Card]) -> (h: Hand)
    requires
        cards@.len() > 0,
        max_dup_count(cards@) == 2 ==> pairs_count(cards@) == 1 || pairs_count(cards@) == 2,
    ensures
        h == hand_spec(cards@),
{
    match get_hands_made_of_duplicates(cards) {
        Some(h) => h,
        None => match discern_straight_hand(cards) {
            Some(h) => h,
            None => Hand::HighCard,
        },
    }
}

/// `a` dominates `b` within `s` when `a`'s rank occurs more often, or
/// equally often with a rank at least as high.
pub open spec fn dominates(s: Seq<Card>, a: Card, b: Card) -> bool {
    count_matching(s, a.value) > count_matching(s, b.value) || (count_matching(s, a.value)
        == count_matching(s, b.value) && a.value.ordinal() >= b.value.ordinal())
}

/// No card before index `i` of `s` shares the rank of the card at `i`.
pub open spec fn first_of_its_value(s: Seq<Card>, i: int) -> bool {
    forall|j: int| 0 <= j < i ==> s[j].value != s[i].value
}

/// Picks the single highest-ranked card of the dominant group: the card
/// whose rank occurs most often, ties among equally frequent ranks broken
/// towards the higher rank. The returned card is the first card of that
/// rank in the input. The input must not be empty; an empty input is a
/// caller contract violation.
pub fn highest_card_in_dominant_group(cards: &[Card]) -> (best: Card)
    requires
        cards@.len() > 0,
    ensures
        cards@.contains(best),
        forall|j: int| 0 <= j < cards@.len() ==> dominates(cards@, best, #[trigger] cards@[j]),
        exists|k: int|
            0 <= k < cards@.len() && best == cards@[k] && first_of_its_value(cards@, k),
{
    let ghost s = cards@;
    let tally = card_counts(cards);
    let mut best = cards[0];
    let mut best_count = tally.count(best.value);
    let ghost mut best_idx: int = 0;
    let mut i: usize = 1;
    while i < cards.len()
        invariant
            s == cards@,
            tally.wf(),
            forall|v: Value| #[trigger] tally.count_of(v) == count_matching(s, v),
            1 <= i <= s.len(),
            0 <= best_idx < i,
            best == s[best_idx],
            first_of_its_value(s, best_idx),
            best_count == count_matching(s, best.value),
            forall|j: int| 0 <= j < i ==> dominates(s, best, #[trigger] s[j]),
        decreases s.len() - i,
    {
        let candidate = cards[i];
        let candidate_count = tally.count(candidate.value);
        let replace = candidate_count > best_count || (candidate_count == best_count
            && candidate.value.position() > best.value.position());
        if replace {
            proof {
                assert forall|j: int| 0 <= j < i implies s[j].value != s[i as int].value by {
                    if s[j].value == s[i as int].value {
                        assert(dominates(s, best, s[j]));
                    }
                }
                assert forall|j: int| 0 <= j < i + 1 implies dominates(
                    s,
                    s[i as int],
                    #[trigger] s[j],
                ) by {
                    if j < i {
                        assert(dominates(s, best, s[j]));
                    }
                }
                best_idx = i as int;
            }
            best = candidate;
            best_count = candidate_count;
        } else {
            proof {
                assert(dominates(s, best, s[i as int]));
            }
        }
        i += 1;
    }
    proof {
        assert(s.contains(best)) by {
            assert(s[best_idx] == best);
        }
    }
    best
}

} // verus!
