//! Hand ranking: the score of a five-card hand and the best five out of
//! seven cards.

use crate::cards::{card_suit, scoring_rank, suit_of, rank_of};
use vstd::prelude::*;
use vstd::relations::{sorted_by, total_ordering};

verus! {

/// `(category, k1, k2, k3, k4, k5)`: the category from 0 (high card) to 8
/// (straight flush), then the tiebreaker ranks in the order in which they
/// are compared. Scores compare lexicographically.
pub type HandScore = (i32, i32, i32, i32, i32, i32);

/// The order on scoring ranks.
pub open spec fn rank_leq() -> spec_fn(i32, i32) -> bool {
    |a: i32, b: i32| a <= b
}

/// The scoring ranks of a hand, card by card.
pub open spec fn hand_ranks(hand: Seq<i32>) -> Seq<i32> {
    hand.map_values(|c: i32| scoring_rank(c))
}

/// The scoring ranks of a hand in ascending order.
pub open spec fn sorted_ranks(hand: Seq<i32>) -> Seq<i32> {
    hand_ranks(hand).sort_by(rank_leq())
}

/// All cards of the hand have one suit.
pub open spec fn is_flush(hand: Seq<i32>) -> bool {
    forall|i: int| 0 <= i < hand.len()
        ==> card_suit(#[trigger] hand[i] as int) == card_suit(hand[0] as int)
}

/// Five ascending ranks form a run without gaps.
pub open spec fn is_straight(r: Seq<i32>) -> bool {
    r[1] == r[0] + 1 && r[2] == r[1] + 1 && r[3] == r[2] + 1 && r[4] == r[3] + 1
}

/// The score of a hand whose ranks `r` are given in ascending order. The
/// first rule that applies decides: straight flush, four of a kind, full
/// house, flush, straight, three of a kind, two pair, one pair, high card.
pub open spec fn score_sorted(r: Seq<i32>, flush: bool) -> HandScore {
    if flush && is_straight(r) {
        (8, r[4], r[4], 0, 0, 0)
    } else if r[0] == r[3] {
        (7, r[0], r[4], 0, 0, 0)
    } else if r[1] == r[4] {
        (7, r[1], r[0], 0, 0, 0)
    } else if r[0] == r[1] && r[2] == r[4] {
        (6, r[2], r[0], 0, 0, 0)
    } else if r[0] == r[2] && r[3] == r[4] {
        (6, r[0], r[3], 0, 0, 0)
    } else if flush {
        (5, r[4], r[3], r[2], r[1], r[0])
    } else if is_straight(r) {
        (4, r[4], 0, 0, 0, 0)
    } else if r[0] == r[2] {
        (3, r[0], r[4], r[3], 0, 0)
    } else if r[1] == r[3] {
        (3, r[1], r[4], r[0], 0, 0)
    } else if r[2] == r[4] {
        (3, r[2], r[1], r[0], 0, 0)
    } else if r[0] == r[1] && r[2] == r[3] {
        (2, r[2], r[0], r[4], 0, 0)
    } else if r[0] == r[1] && r[3] == r[4] {
        (2, r[3], r[0], r[2], 0, 0)
    } else if r[1] == r[2] && r[3] == r[4] {
        (2, r[3], r[1], r[0], 0, 0)
    } else if r[0] == r[1] {
        (1, r[0], r[4], r[3], r[2], 0)
    } else if r[1] == r[2] {
        (1, r[1], r[4], r[3], r[0], 0)
    } else if r[2] == r[3] {
        (1, r[2], r[4], r[1], r[0], 0)
    } else if r[3] == r[4] {
        (1, r[3], r[2], r[1], r[0], 0)
    } else {
        (0, r[4], r[3], r[2], r[1], r[0])
    }
}

/// The score of a five-card hand.
pub open spec fn score5(hand: Seq<i32>) -> HandScore {
    score_sorted(sorted_ranks(hand), is_flush(hand))
}

/// `a` ranks strictly below `b`.
pub open spec fn score_lt(a: HandScore, b: HandScore) -> bool {
    a.0 < b.0 || (a.0 == b.0 && (a.1 < b.1 || (a.1 == b.1 && (a.2 < b.2 || (a.2 == b.2 && (a.3
        < b.3 || (a.3 == b.3 && (a.4 < b.4 || (a.4 == b.4 && a.5 < b.5)))))))))
}

/// `a` ranks below `b` or ties with it.
pub open spec fn score_le(a: HandScore, b: HandScore) -> bool {
    a == b || score_lt(a, b)
}

/// The five cards left when the cards at positions `p < q` are put aside.
pub open spec fn drop_two(cards: Seq<i32>, p: int, q: int) -> Seq<i32> {
    cards.remove(q).remove(p)
}

/// `s` is the highest score among the 21 five-card hands that seven cards
/// contain.
pub open spec fn is_best_of_seven(cards: Seq<i32>, s: HandScore) -> bool {
    &&& exists|p: int, q: int| 0 <= p < q < 7 && s == score5(#[trigger] drop_two(cards, p, q))
    &&& forall|p: int, q: int| 0 <= p < q < 7 ==> score_le(score5(#[trigger] drop_two(cards, p, q)), s)
}

/// The highest score among the 21 five-card hands that seven cards contain.
pub open spec fn best_of_7(cards: Seq<i32>) -> HandScore {
    choose|s: HandScore| is_best_of_seven(cards, s)
}

/// Name of a hand category.
pub open spec fn hand_type_name(hand_type: int) -> Seq<char> {
    if hand_type == 0 {
        "High Card"@
    } else if hand_type == 1 {
        "One Pair"@
    } else if hand_type == 2 {
        "Two Pair"@
    } else if hand_type == 3 {
        "Three of a Kind"@
    } else if hand_type == 4 {
        "Straight"@
    } else if hand_type == 5 {
        "Flush"@
    } else if hand_type == 6 {
        "Full House"@
    } else if hand_type == 7 {
        "Four of a Kind"@
    } else if hand_type == 8 {
        "Straight Flush"@
    } else {
        "Unknown Hand"@
    }
}

proof fn lemma_rank_leq_total()
    ensures
        total_ordering(rank_leq()),
{
    let leq = rank_leq();
    assert(vstd::relations::reflexive(leq));
    assert(vstd::relations::antisymmetric(leq));
    assert(vstd::relations::transitive(leq));
    assert(vstd::relations::strongly_connected(leq));
}

/// Hands that hold the same cards hold the same scoring ranks.
proof fn lemma_hand_ranks_permutation(a: Seq<i32>, b: Seq<i32>)
    requires
        a.to_multiset() == b.to_multiset(),
    ensures
        hand_ranks(a).to_multiset() == hand_ranks(b).to_multiset(),
    decreases a.len(),
{
    a.to_multiset_ensures();
    b.to_multiset_ensures();
    if a.len() == 0 {
        assert(b.len() == 0);
        assert(hand_ranks(a) =~= hand_ranks(b));
    } else {
        let x = a[0];
        assert(a.contains(x));
        assert(b.to_multiset().count(x) > 0);
        assert(b.contains(x));
        let j = choose|j: int| 0 <= j < b.len() && b[j] == x;
        let a1 = a.remove(0);
        let b1 = b.remove(j);
        assert(a1.to_multiset() =~= b1.to_multiset());
        lemma_hand_ranks_permutation(a1, b1);
        assert(hand_ranks(a) =~= hand_ranks(a1).insert(0, scoring_rank(x)));
        assert(hand_ranks(b) =~= hand_ranks(b1).insert(j, scoring_rank(x)));
        vstd::seq_lib::to_multiset_insert(hand_ranks(a1), 0, scoring_rank(x));
        vstd::seq_lib::to_multiset_insert(hand_ranks(b1), j, scoring_rank(x));
    }
}

/// Whether a hand is a flush depends only on the cards it holds.
proof fn lemma_flush_permutation(a: Seq<i32>, b: Seq<i32>)
    requires
        a.to_multiset() == b.to_multiset(),
        is_flush(a),
    ensures
        is_flush(b),
{
    a.to_multiset_ensures();
    b.to_multiset_ensures();
    assert forall|i: int| 0 <= i < b.len() implies card_suit(#[trigger] b[i] as int) == card_suit(
        b[0] as int,
    ) by {
        assert(b.contains(b[i]));
        assert(a.to_multiset().count(b[i]) > 0);
        assert(a.contains(b[i]));
        let k = choose|k: int| 0 <= k < a.len() && a[k] == b[i];
        assert(card_suit(a[k] as int) == card_suit(a[0] as int));
        assert(b.contains(b[0]));
        assert(a.to_multiset().count(b[0]) > 0);
        assert(a.contains(b[0]));
        let k0 = choose|k: int| 0 <= k < a.len() && a[k] == b[0];
        assert(card_suit(a[k0] as int) == card_suit(a[0] as int));
    }
}

/// The score of a five-card hand does not depend on the order of its cards:
/// two hands that hold the same cards score the same.
pub proof fn lemma_score5_permutation(a: Seq<i32>, b: Seq<i32>)
    requires
        a.to_multiset() == b.to_multiset(),
    ensures
        score5(a) == score5(b),
{
    lemma_rank_leq_total();
    lemma_hand_ranks_permutation(a, b);
    hand_ranks(a).lemma_sort_by_ensures(rank_leq());
    hand_ranks(b).lemma_sort_by_ensures(rank_leq());
    vstd::seq_lib::lemma_sorted_unique(sorted_ranks(a), sorted_ranks(b), rank_leq());
    if is_flush(a) {
        lemma_flush_permutation(a, b);
    }
    if is_flush(b) {
        lemma_flush_permutation(b, a);
    }
}

/// Exchanging two elements of a sequence keeps what it holds.
proof fn lemma_swap_keeps_elements(s: Seq<i32>, i: int, j: int)
    requires
        0 <= i < s.len(),
        0 <= j < s.len(),
        i != j,
    ensures
        s.update(i, s[j]).update(j, s[i]).to_multiset() == s.to_multiset(),
{
    broadcast use vstd::multiset::group_multiset_axioms;

    let s1 = s.update(i, s[j]);
    let s2 = s1.update(j, s[i]);
    vstd::seq_lib::to_multiset_update(s, i, s[j]);
    vstd::seq_lib::to_multiset_update(s1, j, s[i]);
    s.to_multiset_ensures();
    s1.to_multiset_ensures();
    assert(s.contains(s[i]));
    assert(s.contains(s[j]));
    assert(s1[j] == s[j]);
    assert(s1.contains(s1[j]));
    assert forall|x: i32| s2.to_multiset().count(x) == s.to_multiset().count(x) by {}
    assert(s2.to_multiset() =~= s.to_multiset());
}

/// Sorts ranks in ascending order by insertion.
fn sort_ranks(v: &mut Vec<i32>)
    ensures
        final(v)@.len() == old(v)@.len(),
        sorted_by(final(v)@, rank_leq()),
        final(v)@.to_multiset() == old(v)@.to_multiset(),
{
    let n = v.len();
    let mut i: usize = 1;
    while i < n
        invariant
            v@.len() == n,
            1 <= i,
            forall|a: int, b: int| 0 <= a < b < i && b < n ==> v@[a] <= v@[b],
            v@.to_multiset() == old(v)@.to_multiset(),
        decreases n - i,
    {
        let mut j: usize = i;
        while j > 0 && v[j - 1] > v[j]
            invariant
                v@.len() == n,
                0 <= j <= i < n,
                forall|a: int, b: int| 0 <= a < b <= i && a != j && b != j ==> v@[a] <= v@[b],
                forall|b: int| j < b <= i ==> v@[j as int] <= v@[b],
                v@.to_multiset() == old(v)@.to_multiset(),
            decreases j,
        {
            let ghost before = v@;
            let lo = v[j - 1];
            let hi = v[j];
            v[j - 1] = hi;
            v[j] = lo;
            proof {
                lemma_swap_keeps_elements(before, j - 1, j as int);
            }
            j = j - 1;
        }
        i = i + 1;
    }
}

/// The score of a five-card hand: its category and tiebreaker ranks.
pub fn get_hand_type(hand: &[i32]) -> (score: HandScore)
    requires
        hand@.len() == 5,
    ensures
        score == score5(hand@),
{
    let mut ranks: Vec<i32> = Vec::new();
    let mut flush = true;
    let first_suit = suit_of(hand[0]);
    let mut k: usize = 0;
    while k < 5
        invariant
            0 <= k <= 5,
            hand@.len() == 5,
            first_suit == card_suit(hand@[0] as int),
            ranks@ == hand_ranks(hand@.subrange(0, k as int)),
            flush == is_flush(hand@.subrange(0, k as int)),
        decreases 5 - k,
    {
        let card = hand[k];
        let r = rank_of(card);
        let ghost prev = hand@.subrange(0, k as int);
        ranks.push(if r != 0 { r } else { 13 });
        if suit_of(card) != first_suit {
            flush = false;
        }
        proof {
            let next = hand@.subrange(0, k + 1);
            assert(next =~= prev.push(card));
            assert(hand_ranks(next) =~= hand_ranks(prev).push(scoring_rank(card)));
            assert(next[0] == hand@[0]);
            if k > 0 {
                assert(prev[0] == hand@[0]);
            }
            if is_flush(next) {
                assert forall|i: int| 0 <= i < prev.len() implies card_suit(
                    #[trigger] prev[i] as int,
                ) == card_suit(prev[0] as int) by {
                    assert(next[i] == prev[i]);
                }
                assert(card_suit(next[k as int] as int) == card_suit(next[0] as int));
            }
            if flush {
                assert forall|i: int| 0 <= i < next.len() implies card_suit(
                    #[trigger] next[i] as int,
                ) == card_suit(next[0] as int) by {
                    if i < k {
                        assert(next[i] == prev[i]);
                    }
                }
            }
        }
        k = k + 1;
    }
    proof {
        assert(hand@.subrange(0, 5) =~= hand@);
        lemma_rank_leq_total();
    }
    let ghost unsorted = ranks@;
    sort_ranks(&mut ranks);
    proof {
        unsorted.lemma_sort_by_ensures(rank_leq());
        vstd::seq_lib::lemma_sorted_unique(ranks@, sorted_ranks(hand@), rank_leq());
        assert(forall|i: int| 0 <= i < 5 ==> -12 <= #[trigger] unsorted[i] <= 13);
        unsorted.to_multiset_ensures();
        ranks@.to_multiset_ensures();
        assert forall|i: int| 0 <= i < 5 implies -12 <= #[trigger] ranks@[i] <= 13 by {
            assert(ranks@.contains(ranks@[i]));
            assert(unsorted.to_multiset().count(ranks@[i]) > 0);
            assert(unsorted.contains(ranks@[i]));
        }
    }
    let r0 = ranks[0];
    let r1 = ranks[1];
    let r2 = ranks[2];
    let r3 = ranks[3];
    let r4 = ranks[4];
    let straight = r1 == r0 + 1 && r2 == r1 + 1 && r3 == r2 + 1 && r4 == r3 + 1;
    if flush && straight {
        (8, r4, r4, 0, 0, 0)
    } else if r0 == r3 {
        (7, r0, r4, 0, 0, 0)
    } else if r1 == r4 {
        (7, r1, r0, 0, 0, 0)
    } else if r0 == r1 && r2 == r4 {
        (6, r2, r0, 0, 0, 0)
    } else if r0 == r2 && r3 == r4 {
        (6, r0, r3, 0, 0, 0)
    } else if flush {
        (5, r4, r3, r2, r1, r0)
    } else if straight {
        (4, r4, 0, 0, 0, 0)
    } else if r0 == r2 {
        (3, r0, r4, r3, 0, 0)
    } else if r1 == r3 {
        (3, r1, r4, r0, 0, 0)
    } else if r2 == r4 {
        (3, r2, r1, r0, 0, 0)
    } else if r0 == r1 && r2 == r3 {
        (2, r2, r0, r4, 0, 0)
    } else if r0 == r1 && r3 == r4 {
        (2, r3, r0, r2, 0, 0)
    } else if r1 == r2 && r3 == r4 {
        (2, r3, r1, r0, 0, 0)
    } else if r0 == r1 {
        (1, r0, r4, r3, r2, 0)
    } else if r1 == r2 {
        (1, r1, r4, r3, r0, 0)
    } else if r2 == r3 {
        (1, r2, r4, r1, r0, 0)
    } else if r3 == r4 {
        (1, r3, r2, r1, r0, 0)
    } else {
        (0, r4, r3, r2, r1, r0)
    }
}

/// Whether score `a` ranks strictly above score `b`.
pub fn score_gt(a: HandScore, b: HandScore) -> (above: bool)
    ensures
        above == score_lt(b, a),
{
    if a.0 != b.0 {
        a.0 > b.0
    } else if a.1 != b.1 {
        a.1 > b.1
    } else if a.2 != b.2 {
        a.2 > b.2
    } else if a.3 != b.3 {
        a.3 > b.3
    } else if a.4 != b.4 {
        a.4 > b.4
    } else {
        a.5 > b.5
    }
}

/// The five cards left when the cards at positions `p < q` are put aside.
fn without_two(hand: &[i32], p: usize, q: usize) -> (five: Vec<i32>)
    requires
        hand@.len() == 7,
        p < q < 7,
    ensures
        five@ == drop_two(hand@, p as int, q as int),
{
    let mut five: Vec<i32> = Vec::new();
    let mut i: usize = 0;
    while i < 7
        invariant
            0 <= i <= 7,
            hand@.len() == 7,
            p < q < 7,
            five@.len() == i - (if i > p { 1int } else { 0int }) - (if i > q { 1int } else { 0int }),
            forall|k: int| 0 <= k < five@.len() ==> five@[k] == drop_two(hand@, p as int, q as int)[k],
        decreases 7 - i,
    {
        if i != p && i != q {
            five.push(hand[i]);
        }
        i = i + 1;
    }
    assert(five@ =~= drop_two(hand@, p as int, q as int));
    five
}

/// The best score that five of the seven cards can reach.
pub fn get_best_hand(hand: &[i32]) -> (best: HandScore)
    requires
        hand@.len() == 7,
    ensures
        is_best_of_seven(hand@, best),
        best == best_of_7(hand@),
{
    let mut best: HandScore = (-1, -1, -1, -1, -1, -1);
    let ghost mut wp: int = 0;
    let ghost mut wq: int = 1;
    let mut p: usize = 0;
    while p < 6
        invariant
            0 <= p <= 6,
            hand@.len() == 7,
            p == 0 ==> best == (-1i32, -1i32, -1i32, -1i32, -1i32, -1i32),
            p > 0 ==> 0 <= wp < wq < 7 && best == score5(drop_two(hand@, wp, wq)),
            forall|a: int, b: int| 0 <= a < b < 7 && a < p
                ==> score_le(score5(#[trigger] drop_two(hand@, a, b)), best),
        decreases 6 - p,
    {
        let mut q: usize = p + 1;
        while q < 7
            invariant
                0 <= p < q <= 7,
                p < 6,
                hand@.len() == 7,
                (p == 0 && q == 1) ==> best == (-1i32, -1i32, -1i32, -1i32, -1i32, -1i32),
                (p > 0 || q > 1) ==> 0 <= wp < wq < 7 && best == score5(drop_two(hand@, wp, wq)),
                forall|a: int, b: int| 0 <= a < b < 7 && (a < p || (a == p && b < q))
                    ==> score_le(score5(#[trigger] drop_two(hand@, a, b)), best),
            decreases 7 - q,
        {
            let five = without_two(hand, p, q);
            let current = get_hand_type(five.as_slice());
            if score_gt(current, best) {
                best = current;
                proof {
                    wp = p as int;
                    wq = q as int;
                }
            }
            q = q + 1;
        }
        p = p + 1;
    }
    proof {
        lemma_best_of_seven_unique(hand@, best, best_of_7(hand@));
    }
    best
}

/// Seven cards have exactly one best score.
pub proof fn lemma_best_of_seven_unique(cards: Seq<i32>, s: HandScore, t: HandScore)
    requires
        is_best_of_seven(cards, s),
    ensures
        is_best_of_seven(cards, t) ==> s == t,
        best_of_7(cards) == s,
{
    if is_best_of_seven(cards, t) {
        let (p, q) = choose|p: int, q: int| 0 <= p < q < 7
            && s == score5(#[trigger] drop_two(cards, p, q));
        assert(score_le(score5(drop_two(cards, p, q)), t));
        let (p2, q2) = choose|p: int, q: int| 0 <= p < q < 7
            && t == score5(#[trigger] drop_two(cards, p, q));
        assert(score_le(score5(drop_two(cards, p2, q2)), s));
    }
    let c = best_of_7(cards);
    assert(is_best_of_seven(cards, c));
    let (p, q) = choose|p: int, q: int| 0 <= p < q < 7 && s == score5(#[trigger] drop_two(cards, p, q));
    assert(score_le(score5(drop_two(cards, p, q)), c));
    let (p2, q2) = choose|p: int, q: int| 0 <= p < q < 7
        && c == score5(#[trigger] drop_two(cards, p, q));
    assert(score_le(score5(drop_two(cards, p2, q2)), s));
}

/// The best score among the pairs of positions numbered below `n`, where
/// the pair `(p, q)` has the number `7 * p + q`.
spec fn best_below(cards: Seq<i32>, n: int) -> HandScore
    decreases n,
{
    if n <= 0 {
        (-1i32, -1i32, -1i32, -1i32, -1i32, -1i32)
    } else {
        let prev = best_below(cards, n - 1);
        let p = (n - 1) / 7;
        let q = (n - 1) % 7;
        let here = score5(drop_two(cards, p, q));
        if p < q && score_lt(prev, here) {
            here
        } else {
            prev
        }
    }
}

proof fn lemma_best_below(cards: Seq<i32>, n: int)
    requires
        0 <= n <= 49,
    ensures
        forall|p: int, q: int|
            0 <= p < q < 7 && 7 * p + q < n ==> score_le(
                score5(#[trigger] drop_two(cards, p, q)),
                best_below(cards, n),
            ),
        n <= 1 ==> best_below(cards, n).0 == -1,
        n > 1 ==> exists|p: int, q: int|
            0 <= p < q < 7 && best_below(cards, n) == score5(#[trigger] drop_two(cards, p, q)),
    decreases n,
{
    if n > 0 {
        lemma_best_below(cards, n - 1);
        let prev = best_below(cards, n - 1);
        let p0 = (n - 1) / 7;
        let q0 = (n - 1) % 7;
        let here = score5(drop_two(cards, p0, q0));
        let now = best_below(cards, n);
        assert(score_le(prev, now));
        assert forall|p: int, q: int| 0 <= p < q < 7 && 7 * p + q < n implies score_le(
            score5(#[trigger] drop_two(cards, p, q)),
            now,
        ) by {
            if 7 * p + q < n - 1 {
                assert(score_le(score5(drop_two(cards, p, q)), prev));
            } else {
                assert(p == p0 && q == q0);
            }
        }
        if n > 1 {
            if p0 < q0 && score_lt(prev, here) {
                assert(now == score5(drop_two(cards, p0, q0)));
            } else if n - 1 > 1 {
                let (p, q) = choose|p: int, q: int|
                    0 <= p < q < 7 && prev == score5(#[trigger] drop_two(cards, p, q));
                assert(now == score5(drop_two(cards, p, q)));
            } else {
                assert(n == 2 && p0 == 0 && q0 == 1);
                assert(here.0 >= 0);
            }
        }
    }
}

/// Seven cards always have a best score.
pub proof fn lemma_best_of_seven_exists(cards: Seq<i32>)
    ensures
        is_best_of_seven(cards, best_of_7(cards)),
{
    lemma_best_below(cards, 49);
    let s = best_below(cards, 49);
    assert forall|p: int, q: int| 0 <= p < q < 7 implies score_le(
        score5(#[trigger] drop_two(cards, p, q)),
        s,
    ) by {
        assert(7 * p + q < 49);
    }
    assert(is_best_of_seven(cards, s));
}

/// A card of one hand is found in any rearrangement of the hand, and what
/// is left of both after taking it out still holds the same cards.
proof fn lemma_take_out(a: Seq<i32>, b: Seq<i32>, i: int) -> (j: int)
    requires
        a.to_multiset() == b.to_multiset(),
        0 <= i < b.len(),
    ensures
        0 <= j < a.len(),
        a[j] == b[i],
        a.remove(j).to_multiset() == b.remove(i).to_multiset(),
{
    let x = b[i];
    assert(b.contains(x));
    vstd::seq_lib::to_multiset_contains(b, x);
    vstd::seq_lib::to_multiset_contains(a, x);
    let j = choose|j: int| 0 <= j < a.len() && a[j] == x;
    vstd::seq_lib::to_multiset_remove(a, j);
    vstd::seq_lib::to_multiset_remove(b, i);
    j
}

/// Taking out the later of two positions first gives the same sequence as
/// taking out the earlier one first.
proof fn lemma_remove_order(a: Seq<i32>, j: int, k: int)
    requires
        0 <= j <= k < a.len() - 1,
    ensures
        a.remove(k + 1).remove(j) == a.remove(j).remove(k),
{
    assert(a.remove(k + 1).remove(j) =~= a.remove(j).remove(k));
}

/// For two cards put aside from `b` there are two cards to put aside from a
/// rearrangement `a` of `b` that leave the same five cards.
proof fn lemma_drop_two_match(a: Seq<i32>, b: Seq<i32>, p: int, q: int) -> (r: (int, int))
    requires
        a.len() == 7,
        a.to_multiset() == b.to_multiset(),
        0 <= p < q < 7,
    ensures
        0 <= r.0 < r.1 < 7,
        drop_two(a, r.0, r.1).to_multiset() == drop_two(b, p, q).to_multiset(),
{
    vstd::seq_lib::to_multiset_len(a);
    vstd::seq_lib::to_multiset_len(b);
    let j = lemma_take_out(a, b, q);
    let k = lemma_take_out(a.remove(j), b.remove(q), p);
    if k < j {
        (k, j)
    } else {
        lemma_remove_order(a, j, k);
        (j, k + 1)
    }
}

/// The best score of seven cards does not depend on their order: two
/// seven-card hands that hold the same cards have the same best score.
pub proof fn lemma_best_of_7_permutation(a: Seq<i32>, b: Seq<i32>)
    requires
        a.len() == 7,
        a.to_multiset() == b.to_multiset(),
    ensures
        best_of_7(a) == best_of_7(b),
{
    vstd::seq_lib::to_multiset_len(a);
    vstd::seq_lib::to_multiset_len(b);
    lemma_best_of_seven_exists(a);
    let s = best_of_7(a);
    let (p, q) = choose|p: int, q: int| 0 <= p < q < 7 && s == score5(#[trigger] drop_two(a, p, q));
    let m = lemma_drop_two_match(b, a, p, q);
    lemma_score5_permutation(drop_two(b, m.0, m.1), drop_two(a, p, q));
    assert(s == score5(drop_two(b, m.0, m.1)));
    assert forall|p2: int, q2: int| 0 <= p2 < q2 < 7 implies score_le(
        score5(#[trigger] drop_two(b, p2, q2)),
        s,
    ) by {
        let m2 = lemma_drop_two_match(a, b, p2, q2);
        lemma_score5_permutation(drop_two(a, m2.0, m2.1), drop_two(b, p2, q2));
        assert(score_le(score5(drop_two(a, m2.0, m2.1)), s));
    }
    assert(is_best_of_seven(b, s));
    lemma_best_of_seven_unique(b, s, s);
}

/// The name of a hand category, `Unknown Hand` outside `0..=8`.
pub fn hand_type_to_string(hand_type: i32) -> (name: String)
    ensures
        name@ == hand_type_name(hand_type as int),
{
    if hand_type == 0 {
        "High Card".to_string()
    } else if hand_type == 1 {
        "One Pair".to_string()
    } else if hand_type == 2 {
        "Two Pair".to_string()
    } else if hand_type == 3 {
        "Three of a Kind".to_string()
    } else if hand_type == 4 {
        "Straight".to_string()
    } else if hand_type == 5 {
        "Flush".to_string()
    } else if hand_type == 6 {
        "Full House".to_string()
    } else if hand_type == 7 {
        "Four of a Kind".to_string()
    } else if hand_type == 8 {
        "Straight Flush".to_string()
    } else {
        "Unknown Hand".to_string()
    }
}

} // verus!
