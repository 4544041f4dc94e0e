//! Hand evaluation: shanten number, tenpai waits, winning-shape test and a
//! simplified score calculation.
//!
//! A hand is summarised by a 34-entry count array indexed by tile kind
//! (0-8 characters, 9-17 circles, 18-26 bamboo, 27-33 honours).  The red
//! fives (ids 34, 37, 40) count as their ordinary kind.

use vstd::prelude::*;

verus! {

// ── tile ids and counts ───────────────────────────────────────

/// The kind index (0..34) that a Tenhou tile id counts as.
pub open spec fn tile_kind(id: i32) -> int {
    if 0 <= id <= 33 {
        id as int
    } else if id == 34 {
        4
    } else if id == 37 {
        13
    } else if id == 40 {
        22
    } else {
        0
    }
}

/// Number of tiles of `hand` that count as kind `k`.
pub open spec fn count_kind(hand: Seq<i32>, k: int) -> nat
    decreases hand.len(),
{
    if hand.len() == 0 {
        0
    } else {
        count_kind(hand.drop_last(), k) + (if tile_kind(hand.last()) == k { 1nat } else { 0nat })
    }
}

/// No kind occurs more than 255 times, so the counts fit in a byte.
pub open spec fn hand_fits(hand: Seq<i32>) -> bool {
    forall|k: int| 0 <= k < 34 ==> #[trigger] count_kind(hand, k) <= 255
}

/// The 34-entry count array of a hand.
pub open spec fn counts_of(hand: Seq<i32>) -> Seq<u8> {
    Seq::new(34, |k: int| count_kind(hand, k) as u8)
}

/// Sum of a sequence of counts.
pub open spec fn csum(s: Seq<u8>) -> int
    decreases s.len(),
{
    if s.len() == 0 {
        0
    } else {
        csum(s.drop_last()) + s.last()
    }
}

proof fn lemma_count_kind_prefix(hand: Seq<i32>, i: int, k: int)
    requires
        0 <= i < hand.len(),
    ensures
        count_kind(hand.take(i + 1), k) == count_kind(hand.take(i), k) + (if tile_kind(hand[i]) == k { 1int } else { 0int }),
{
    assert(hand.take(i + 1).drop_last() =~= hand.take(i));
}

proof fn lemma_count_kind_take_le(hand: Seq<i32>, i: int, k: int)
    requires
        0 <= i <= hand.len(),
    ensures
        count_kind(hand.take(i), k) <= count_kind(hand, k),
    decreases hand.len() - i,
{
    if i < hand.len() {
        lemma_count_kind_prefix(hand, i, k);
        lemma_count_kind_take_le(hand, i + 1, k);
    } else {
        assert(hand.take(i) =~= hand);
    }
}

/// The total of all kind counts is the length of the hand.
#[verifier::spinoff_prover]
pub proof fn lemma_count_kind_total(hand: Seq<i32>)
    requires
        hand_fits(hand),
    ensures
        csum(counts_of(hand)) == hand.len(),
    decreases hand.len(),
{
    if hand.len() == 0 {
        lemma_csum_zero(counts_of(hand));
    } else {
        let h2 = hand.drop_last();
        let k0 = tile_kind(hand.last());
        assert forall|k: int| 0 <= k < 34 implies #[trigger] count_kind(h2, k) <= 255 by {
            assert(count_kind(hand, k) <= 255);
        }
        lemma_count_kind_total(h2);
        assert(counts_of(hand) =~= counts_of(h2).update(k0, (counts_of(h2)[k0] + 1) as u8)) by {
            assert(count_kind(hand, k0) <= 255);
        }
        lemma_csum_update(counts_of(h2), k0, (counts_of(h2)[k0] + 1) as u8);
    }
}

proof fn lemma_csum_zero(s: Seq<u8>)
    requires
        forall|i: int| 0 <= i < s.len() ==> s[i] == 0,
    ensures
        csum(s) == 0,
    decreases s.len(),
{
    if s.len() > 0 {
        lemma_csum_zero(s.drop_last());
    }
}

pub proof fn lemma_csum_update(s: Seq<u8>, i: int, v: u8)
    requires
        0 <= i < s.len(),
    ensures
        csum(s.update(i, v)) == csum(s) - s[i] + v,
        csum(s.update(i, v)) >= 0,
    decreases s.len(),
{
    lemma_csum_bound(s.update(i, v));
    if i == s.len() - 1 {
        assert(s.update(i, v).drop_last() =~= s.drop_last());
    } else {
        assert(s.update(i, v).drop_last() =~= s.drop_last().update(i, v));
        lemma_csum_update(s.drop_last(), i, v);
    }
}

proof fn lemma_csum_bound(s: Seq<u8>)
    ensures
        0 <= csum(s) <= 255 * s.len(),
    decreases s.len(),
{
    if s.len() > 0 {
        lemma_csum_bound(s.drop_last());
    }
}

/// The kinds that a hand's tiles count as, in order.
pub open spec fn kinds_of(hand: Seq<i32>) -> Seq<int> {
    hand.map_values(|x: i32| tile_kind(x))
}

/// The count of a kind is its multiplicity among the hand's kinds.
pub proof fn lemma_count_kind_multiset(hand: Seq<i32>, k: int)
    ensures
        count_kind(hand, k) == kinds_of(hand).to_multiset().count(k),
        kinds_of(hand).len() == hand.len(),
    decreases hand.len(),
{
    if hand.len() == 0 {
        assert(!kinds_of(hand).contains(k));
        vstd::seq_lib::to_multiset_contains(kinds_of(hand), k);
    } else {
        let h2 = hand.drop_last();
        lemma_count_kind_multiset(h2, k);
        assert(kinds_of(hand) =~= kinds_of(h2).push(tile_kind(hand.last())));
        vstd::seq_lib::to_multiset_build(kinds_of(h2), tile_kind(hand.last()));
    }
}

/// The representative tile id of a kind index: the first id of that kind.
pub open spec fn first_id(idx: int) -> int {
    if 0 <= idx < 34 {
        idx
    } else {
        0
    }
}

/// Tenhou tile id → kind index; red fives count as their ordinary five.
#[verifier::allow_in_spec]
pub fn tile_to_index34(id: i32) -> (r: usize)
    returns
        tile_kind(id) as usize,
{
    if 0 <= id && id <= 33 {
        id as usize
    } else if id == 34 {
        4
    } else if id == 37 {
        13
    } else if id == 40 {
        22
    } else {
        0
    }
}

/// Kind index → representative tile id (the first id of that kind).
#[verifier::allow_in_spec]
pub fn index34_to_id(idx: usize) -> (r: i32)
    returns
        first_id(idx as int) as i32,
{
    if idx < 34 {
        idx as i32
    } else {
        0
    }
}

/// Tile id list → 34-entry count array (red fives merged into their kind).
pub fn hand_to_counts(hand: &[i32]) -> (counts: [u8; 34])
    requires
        hand_fits(hand@),
    ensures
        counts@ == counts_of(hand@),
{
    let mut counts = [0u8; 34];
    let mut i: usize = 0;
    while i < hand.len()
        invariant
            0 <= i <= hand.len(),
            hand_fits(hand@),
            counts@.len() == 34,
            forall|k: int| 0 <= k < 34 ==> counts@[k] == count_kind(hand@.take(i as int), k),
        decreases hand.len() - i,
    {
        let idx = tile_to_index34(hand[i]);
        proof {
            assert forall|k: int| 0 <= k < 34 implies count_kind(hand@.take(i + 1), k) == count_kind(hand@.take(i as int), k) + (if tile_kind(hand@[i as int]) == k { 1int } else { 0int }) by {
                lemma_count_kind_prefix(hand@, i as int, k);
            }
            lemma_count_kind_take_le(hand@, i + 1, idx as int);
            assert(count_kind(hand@, idx as int) <= 255);
        }
        counts[idx] = counts[idx] + 1;
        i = i + 1;
    }
    proof {
        assert(hand@.take(hand.len() as int) =~= hand@);
    }
    assert(counts@ =~= counts_of(hand@));
    counts
}


// ── partial-decomposition search ─────────────────────────────

/// A (complete melds, partial melds) pair.  Pairs are ranked by
/// `2 * melds + partials`, ties broken by the larger number of melds.
pub open spec fn better(a: (int, int), b: (int, int)) -> bool {
    2 * b.0 + b.1 > 2 * a.0 + a.1 || (2 * b.0 + b.1 == 2 * a.0 + a.1 && b.0 > a.0)
}

/// The better of two pairs (the first on a tie, which can only be equal).
pub open spec fn upd(a: (int, int), b: (int, int)) -> (int, int) {
    if better(a, b) {
        b
    } else {
        a
    }
}

/// A pair ranked below every pair of non-negative counts: stands for an
/// absent branch of the search.
pub open spec fn none_pair() -> (int, int) {
    (-1, 0)
}

/// Whether a run of three can start at kind `idx` (suited, within one suit).
pub open spec fn run_start(idx: int) -> bool {
    0 <= idx < 27 && idx % 9 <= 6
}

/// Whether a two-tile partial run can start at kind `idx`.
pub open spec fn pair_run_start(idx: int) -> bool {
    0 <= idx < 27 && idx % 9 <= 7
}

pub open spec fn dec(c: Seq<u8>, i: int, n: int) -> Seq<u8> {
    c.update(i, (c[i] - n) as u8)
}

/// The best pair over the partial-decomposition search tree rooted at kind
/// `idx` with `m` melds and `t` partial melds already taken.
///
/// At a kind with tiles left the search branches on: taking two triplets,
/// taking one triplet, taking a run starting here (all staying at this kind);
/// then, moving to the next kind, counting a remaining pair as a partial
/// meld, or for a single tile a partial run with the next (else the one after
/// next) kind, alongside simply moving on.
pub open spec fn search(c: Seq<u8>, idx: int, m: int, t: int) -> (int, int)
    decreases csum(c), 34 - idx,
{
    if idx < 0 || idx >= 34 || idx >= c.len() {
        (m, t)
    } else if c[idx] == 0 {
        search(c, idx + 1, m, t)
    } else {
        let ci = c[idx];
        let two_trips = if ci >= 6 {
            proof {
                lemma_csum_update(c, idx, (ci - 6) as u8);
            }
            search(dec(c, idx, 6), idx, m + 2, t)
        } else {
            none_pair()
        };
        let one_trip = if ci >= 3 {
            proof {
                lemma_csum_update(c, idx, (ci - 3) as u8);
            }
            search(dec(c, idx, 3), idx, m + 1, t)
        } else {
            none_pair()
        };
        let run = if run_start(idx) && idx + 2 < c.len() && c[idx + 1] > 0 && c[idx + 2] > 0 {
            proof {
                lemma_csum_update(c, idx, (ci - 1) as u8);
                lemma_csum_update(dec(c, idx, 1), idx + 1, (c[idx + 1] - 1) as u8);
                lemma_csum_update(dec(dec(c, idx, 1), idx + 1, 1), idx + 2, (c[idx + 2] - 1) as u8);
            }
            search(dec(dec(dec(c, idx, 1), idx + 1, 1), idx + 2, 1), idx, m + 1, t)
        } else {
            none_pair()
        };
        let rest = if ci == 2 {
            search(c, idx + 1, m, t + 1)
        } else if ci == 1 {
            let partial = if pair_run_start(idx) && idx + 1 < c.len() && c[idx + 1] >= 1 {
                proof {
                    lemma_csum_update(c, idx, (ci - 1) as u8);
                    lemma_csum_update(dec(c, idx, 1), idx + 1, (c[idx + 1] - 1) as u8);
                }
                search(dec(dec(c, idx, 1), idx + 1, 1), idx + 1, m, t + 1)
            } else if pair_run_start(idx) && run_start(idx) && idx + 2 < c.len() && c[idx + 2] >= 1 {
                proof {
                    lemma_csum_update(c, idx, (ci - 1) as u8);
                    lemma_csum_update(dec(c, idx, 1), idx + 2, (c[idx + 2] - 1) as u8);
                }
                search(dec(dec(c, idx, 1), idx + 2, 1), idx + 1, m, t + 1)
            } else {
                none_pair()
            };
            upd(partial, search(c, idx + 1, m, t))
        } else {
            search(c, idx + 1, m, t)
        };
        upd(upd(upd(upd(none_pair(), two_trips), one_trip), run), rest)
    }
}

pub proof fn lemma_upd_assoc(a: (int, int), b: (int, int), c: (int, int))
    ensures
        upd(upd(a, b), c) == upd(a, upd(b, c)),
{
}

/// Bound on the search results: every melds/partials count only grows along
/// a branch, and each meld uses three tiles of the kinds from `idx` on while
/// each partial meld uses two.
pub proof fn lemma_search_bounds(c: Seq<u8>, idx: int, m: int, t: int)
    requires
        0 <= idx <= 34,
        c.len() == 34,
        0 <= m,
        0 <= t,
    ensures
        search(c, idx, m, t).0 >= m,
        search(c, idx, m, t).1 >= t,
        3 * search(c, idx, m, t).0 + 2 * search(c, idx, m, t).1 <= 3 * m + 2 * t + suffix_sum(c, idx),
    decreases csum(c), 34 - idx,
{
    if idx < 34 {
        lemma_suffix_sum_step(c, idx);
        let ci = c[idx];
        if ci == 0 {
            lemma_search_bounds(c, idx + 1, m, t);
        } else {
            if ci >= 6 {
                lemma_csum_update(c, idx, (ci - 6) as u8);
                lemma_suffix_sum_update(c, idx, (ci - 6) as u8, idx);
                lemma_search_bounds(dec(c, idx, 6), idx, m + 2, t);
            }
            if ci >= 3 {
                lemma_csum_update(c, idx, (ci - 3) as u8);
                lemma_suffix_sum_update(c, idx, (ci - 3) as u8, idx);
                lemma_search_bounds(dec(c, idx, 3), idx, m + 1, t);
            }
            if run_start(idx) && c[idx + 1] > 0 && c[idx + 2] > 0 {
                let c1 = dec(c, idx, 1);
                let c2 = dec(c1, idx + 1, 1);
                lemma_csum_update(c, idx, (ci - 1) as u8);
                lemma_csum_update(c1, idx + 1, (c[idx + 1] - 1) as u8);
                lemma_csum_update(c2, idx + 2, (c[idx + 2] - 1) as u8);
                lemma_suffix_sum_update(c, idx, (ci - 1) as u8, idx);
                lemma_suffix_sum_update(c1, idx + 1, (c[idx + 1] - 1) as u8, idx);
                lemma_suffix_sum_update(c2, idx + 2, (c[idx + 2] - 1) as u8, idx);
                lemma_search_bounds(dec(c2, idx + 2, 1), idx, m + 1, t);
            }
            if ci == 2 {
                lemma_search_bounds(c, idx + 1, m, t + 1);
            } else if ci == 1 {
                if pair_run_start(idx) && c[idx + 1] >= 1 {
                    let c1 = dec(c, idx, 1);
                    lemma_csum_update(c, idx, (ci - 1) as u8);
                    lemma_csum_update(c1, idx + 1, (c[idx + 1] - 1) as u8);
                    lemma_suffix_sum_update(c1, idx + 1, (c[idx + 1] - 1) as u8, idx + 1);
                    lemma_suffix_sum_update(c, idx, (ci - 1) as u8, idx + 1);
                    lemma_search_bounds(dec(c1, idx + 1, 1), idx + 1, m, t + 1);
                } else if pair_run_start(idx) && run_start(idx) && c[idx + 2] >= 1 {
                    let c1 = dec(c, idx, 1);
                    lemma_csum_update(c, idx, (ci - 1) as u8);
                    lemma_csum_update(c1, idx + 2, (c[idx + 2] - 1) as u8);
                    lemma_suffix_sum_update(c1, idx + 2, (c[idx + 2] - 1) as u8, idx + 1);
                    lemma_suffix_sum_update(c, idx, (ci - 1) as u8, idx + 1);
                    lemma_search_bounds(dec(c1, idx + 2, 1), idx + 1, m, t + 1);
                }
                lemma_search_bounds(c, idx + 1, m, t);
            } else {
                lemma_search_bounds(c, idx + 1, m, t);
            }
        }
    }
}

proof fn lemma_suffix_sum_step(c: Seq<u8>, idx: int)
    requires
        0 <= idx < c.len(),
    ensures
        suffix_sum(c, idx) == c[idx] + suffix_sum(c, idx + 1),
        suffix_sum(c, idx + 1) >= 0,
{
    lemma_suffix_sum_nonneg(c, idx + 1);
}

proof fn lemma_suffix_sum_nonneg(c: Seq<u8>, idx: int)
    ensures
        suffix_sum(c, idx) >= 0,
    decreases c.len() - idx,
{
    if 0 <= idx < c.len() {
        lemma_suffix_sum_nonneg(c, idx + 1);
    }
}

proof fn lemma_suffix_sum_update(c: Seq<u8>, i: int, v: u8, j: int)
    requires
        0 <= i < c.len(),
        0 <= j,
    ensures
        suffix_sum(c.update(i, v), j) == suffix_sum(c, j) - (if j <= i { c[i] - v } else { 0 }),
    decreases c.len() - j,
{
    if j < c.len() {
        lemma_suffix_sum_update(c, i, v, j + 1);
    }
}

/// Sum of the counts of kinds `idx..`.
pub open spec fn suffix_sum(c: Seq<u8>, idx: int) -> int
    decreases c.len() - idx,
{
    if idx < 0 || idx >= c.len() {
        0
    } else {
        c[idx] + suffix_sum(c, idx + 1)
    }
}

/// A partial meld `(k, d)`: a pair of kind `k` when `d` is 0, else the two
/// kinds `k` and `k + d` of one suit, next to each other (`d` is 1) or one
/// apart (`d` is 2).
pub open spec fn partial_ok(p: (int, int)) -> bool {
    if p.1 == 0 {
        0 <= p.0 < 34
    } else if p.1 == 1 {
        pair_run_start(p.0)
    } else {
        p.1 == 2 && run_start(p.0)
    }
}

/// How many tiles of kind `i` the partial meld holds.
pub open spec fn partial_cover(p: (int, int), i: int) -> int {
    if p.1 == 0 {
        if i == p.0 {
            2
        } else {
            0
        }
    } else if i == p.0 || i == p.0 + p.1 {
        1
    } else {
        0
    }
}

/// How many tiles of kind `i` a list of partial melds holds.
pub open spec fn pcover(ps: Seq<(int, int)>, i: int) -> int
    decreases ps.len(),
{
    if ps.len() == 0 {
        0
    } else {
        pcover(ps.drop_last(), i) + partial_cover(ps.last(), i)
    }
}

/// The tiles of kind `i` that may be used when only kinds from `idx` on count.
pub open spec fn room(c: Seq<u8>, idx: int, i: int) -> int {
    if i < idx {
        0
    } else {
        c[i] as int
    }
}

/// The melds `ms` and partial melds `ps` are disjoint sets of tiles taken
/// from the counts `c` at the kinds from `idx` on.
pub open spec fn taken_from(ms: Seq<(bool, int)>, ps: Seq<(int, int)>, c: Seq<u8>, idx: int) -> bool {
    &&& forall|j: int| 0 <= j < ms.len() ==> meld_ok(#[trigger] ms[j])
    &&& forall|j: int| 0 <= j < ps.len() ==> partial_ok(#[trigger] ps[j])
    &&& forall|i: int| 0 <= i < 34 ==> #[trigger] cover(ms, i) + pcover(ps, i) <= room(c, idx, i)
}

/// The counts `c` hold `n` melds and `p` partial melds, all disjoint, at the
/// kinds from `idx` on.
pub open spec fn holds_sets(c: Seq<u8>, idx: int, n: int, p: int) -> bool {
    exists|ms: Seq<(bool, int)>, ps: Seq<(int, int)>|
        ms.len() == n && ps.len() == p && #[trigger] taken_from(ms, ps, c, idx)
}

proof fn lemma_pcover_nonneg(ps: Seq<(int, int)>, i: int)
    ensures
        pcover(ps, i) >= 0,
    decreases ps.len(),
{
    if ps.len() > 0 {
        lemma_pcover_nonneg(ps.drop_last(), i);
    }
}

/// Sets taken from fewer tiles are taken from more.
proof fn lemma_holds_wider(c2: Seq<u8>, idx2: int, n: int, p: int, c: Seq<u8>, idx: int)
    requires
        holds_sets(c2, idx2, n, p),
        forall|i: int| 0 <= i < 34 ==> room(c2, idx2, i) <= #[trigger] room(c, idx, i),
    ensures
        holds_sets(c, idx, n, p),
{
    let (ms, ps) = choose|ms: Seq<(bool, int)>, ps: Seq<(int, int)>|
        ms.len() == n && ps.len() == p && #[trigger] taken_from(ms, ps, c2, idx2);
    assert forall|i: int| 0 <= i < 34 implies #[trigger] cover(ms, i) + pcover(ps, i) <= room(c, idx, i) by {
        assert(cover(ms, i) + pcover(ps, i) <= room(c2, idx2, i));
    }
    assert(taken_from(ms, ps, c, idx));
}

/// One more meld, on the tiles that the earlier sets leave.
proof fn lemma_holds_meld(c2: Seq<u8>, idx2: int, n: int, p: int, md: (bool, int), c: Seq<u8>, idx: int)
    requires
        holds_sets(c2, idx2, n, p),
        meld_ok(md),
        forall|i: int| 0 <= i < 34 ==> room(c2, idx2, i) + meld_cover(md, i) <= #[trigger] room(c, idx, i),
    ensures
        holds_sets(c, idx, n + 1, p),
{
    let (ms, ps) = choose|ms: Seq<(bool, int)>, ps: Seq<(int, int)>|
        ms.len() == n && ps.len() == p && #[trigger] taken_from(ms, ps, c2, idx2);
    let ms2 = ms.push(md);
    assert forall|i: int| 0 <= i < 34 implies #[trigger] cover(ms2, i) + pcover(ps, i) <= room(c, idx, i) by {
        lemma_cover_push(ms, md, i);
        assert(cover(ms, i) + pcover(ps, i) <= room(c2, idx2, i));
    }
    assert forall|j: int| 0 <= j < ms2.len() implies meld_ok(#[trigger] ms2[j]) by {
        if j < ms.len() {
            assert(ms2[j] == ms[j]);
        }
    }
    assert(taken_from(ms2, ps, c, idx));
}

/// One more partial meld, on the tiles that the earlier sets leave.
proof fn lemma_holds_partial(c2: Seq<u8>, idx2: int, n: int, p: int, pp: (int, int), c: Seq<u8>, idx: int)
    requires
        holds_sets(c2, idx2, n, p),
        partial_ok(pp),
        forall|i: int| 0 <= i < 34 ==> room(c2, idx2, i) + partial_cover(pp, i) <= #[trigger] room(c, idx, i),
    ensures
        holds_sets(c, idx, n, p + 1),
{
    let (ms, ps) = choose|ms: Seq<(bool, int)>, ps: Seq<(int, int)>|
        ms.len() == n && ps.len() == p && #[trigger] taken_from(ms, ps, c2, idx2);
    let ps2 = ps.push(pp);
    assert forall|i: int| 0 <= i < 34 implies #[trigger] cover(ms, i) + pcover(ps2, i) <= room(c, idx, i) by {
        assert(ps2.drop_last() =~= ps);
        assert(cover(ms, i) + pcover(ps, i) <= room(c2, idx2, i));
    }
    assert forall|j: int| 0 <= j < ps2.len() implies partial_ok(#[trigger] ps2[j]) by {
        if j < ps.len() {
            assert(ps2[j] == ps[j]);
        }
    }
    assert(taken_from(ms, ps2, c, idx));
}

/// Every result of the search is made of disjoint melds and partial melds
/// taken from the counts at the kinds from `idx` on.
proof fn lemma_search_holds(c: Seq<u8>, idx: int, m: int, t: int)
    requires
        c.len() == 34,
        0 <= idx <= 34,
        0 <= m,
        0 <= t,
    ensures
        holds_sets(c, idx, search(c, idx, m, t).0 - m, search(c, idx, m, t).1 - t),
    decreases csum(c), 34 - idx,
{
    let r = search(c, idx, m, t);
    lemma_search_bounds(c, idx, m, t);
    if idx >= 34 {
        let ms = Seq::<(bool, int)>::empty();
        let ps = Seq::<(int, int)>::empty();
        assert(taken_from(ms, ps, c, idx));
        return;
    }
    let ci = c[idx];
    lemma_search_bounds(c, idx + 1, m, t);
    lemma_search_holds(c, idx + 1, m, t);
    let on = search(c, idx + 1, m, t);
    lemma_holds_wider(c, idx + 1, on.0 - m, on.1 - t, c, idx);
    if ci == 0 {
        return;
    }
    let two = if ci >= 6 { search(dec(c, idx, 6), idx, m + 2, t) } else { none_pair() };
    let one = if ci >= 3 { search(dec(c, idx, 3), idx, m + 1, t) } else { none_pair() };
    let cr = dec(dec(dec(c, idx, 1), idx + 1, 1), idx + 2, 1);
    let run = if run_start(idx) && c[idx + 1] > 0 && c[idx + 2] > 0 {
        search(cr, idx, m + 1, t)
    } else {
        none_pair()
    };
    if ci >= 6 {
        let c6 = dec(c, idx, 6);
        let c3 = dec(c, idx, 3);
        lemma_csum_update(c, idx, (ci - 6) as u8);
        lemma_search_bounds(c6, idx, m + 2, t);
        lemma_search_holds(c6, idx, m + 2, t);
        lemma_holds_meld(c6, idx, two.0 - m - 2, two.1 - t, (true, idx), c3, idx);
        lemma_holds_meld(c3, idx, two.0 - m - 1, two.1 - t, (true, idx), c, idx);
    }
    if ci >= 3 {
        let c3 = dec(c, idx, 3);
        lemma_csum_update(c, idx, (ci - 3) as u8);
        lemma_search_bounds(c3, idx, m + 1, t);
        lemma_search_holds(c3, idx, m + 1, t);
        lemma_holds_meld(c3, idx, one.0 - m - 1, one.1 - t, (true, idx), c, idx);
    }
    if run_start(idx) && c[idx + 1] > 0 && c[idx + 2] > 0 {
        let c1 = dec(c, idx, 1);
        let c2 = dec(c1, idx + 1, 1);
        lemma_csum_update(c, idx, (ci - 1) as u8);
        lemma_csum_update(c1, idx + 1, (c[idx + 1] - 1) as u8);
        lemma_csum_update(c2, idx + 2, (c[idx + 2] - 1) as u8);
        lemma_search_bounds(cr, idx, m + 1, t);
        lemma_search_holds(cr, idx, m + 1, t);
        lemma_holds_meld(cr, idx, run.0 - m - 1, run.1 - t, (false, idx), c, idx);
    }
    if ci == 2 {
        let pr = search(c, idx + 1, m, t + 1);
        lemma_search_bounds(c, idx + 1, m, t + 1);
        lemma_search_holds(c, idx + 1, m, t + 1);
        lemma_holds_partial(c, idx + 1, pr.0 - m, pr.1 - t - 1, (idx, 0), c, idx);
    }
    if ci == 1 {
        if pair_run_start(idx) && c[idx + 1] >= 1 {
            let c1 = dec(c, idx, 1);
            let c2 = dec(c1, idx + 1, 1);
            lemma_csum_update(c, idx, (ci - 1) as u8);
            lemma_csum_update(c1, idx + 1, (c[idx + 1] - 1) as u8);
            let pr = search(c2, idx + 1, m, t + 1);
            lemma_search_bounds(c2, idx + 1, m, t + 1);
            lemma_search_holds(c2, idx + 1, m, t + 1);
            lemma_holds_partial(c2, idx + 1, pr.0 - m, pr.1 - t - 1, (idx, 1), c, idx);
        } else if pair_run_start(idx) && run_start(idx) && c[idx + 2] >= 1 {
            let c1 = dec(c, idx, 1);
            let c2 = dec(c1, idx + 2, 1);
            lemma_csum_update(c, idx, (ci - 1) as u8);
            lemma_csum_update(c1, idx + 2, (c[idx + 2] - 1) as u8);
            let pr = search(c2, idx + 1, m, t + 1);
            lemma_search_bounds(c2, idx + 1, m, t + 1);
            lemma_search_holds(c2, idx + 1, m, t + 1);
            lemma_holds_partial(c2, idx + 1, pr.0 - m, pr.1 - t - 1, (idx, 2), c, idx);
        }
    }
}

/// Walks the search tree, folding every leaf into `(best_melds, best_tatsu)`.
#[verifier::rlimit(60)]
fn count_recursive(
    counts: &[u8; 34],
    idx: usize,
    melds: i32,
    tatsu: i32,
    best_melds: &mut i32,
    best_tatsu: &mut i32,
)
    requires
        idx <= 34,
        0 <= melds,
        0 <= tatsu,
        3 * melds + tatsu + csum(counts@) <= 8670 + idx,
        0 <= *old(best_melds),
        0 <= *old(best_tatsu),
        3 * *old(best_melds) + *old(best_tatsu) <= 8704,
    ensures
        (*final(best_melds) as int, *final(best_tatsu) as int) == upd(
            (*old(best_melds) as int, *old(best_tatsu) as int),
            search(counts@, idx as int, melds as int, tatsu as int),
        ),
        0 <= *final(best_melds),
        0 <= *final(best_tatsu),
        3 * *final(best_melds) + *final(best_tatsu) <= 8704,
        (*final(best_melds), *final(best_tatsu)) == (*old(best_melds), *old(best_tatsu)) || holds_sets(
            counts@,
            idx as int,
            *final(best_melds) - melds,
            *final(best_tatsu) - tatsu,
        ),
    decreases csum(counts@), 34 - idx,
{
    proof {
        lemma_csum_bound(counts@);
        lemma_search_holds(counts@, idx as int, melds as int, tatsu as int);
    }
    if idx >= 34 {
        let score = melds * 2 + tatsu;
        let best_score = *best_melds * 2 + *best_tatsu;
        if score > best_score || (score == best_score && melds > *best_melds) {
            *best_melds = melds;
            *best_tatsu = tatsu;
        }
        return;
    }
    if counts[idx] == 0 {
        count_recursive(counts, idx + 1, melds, tatsu, best_melds, best_tatsu);
        return;
    }
    let ghost b0 = (*best_melds as int, *best_tatsu as int);
    let ghost c0 = counts@;
    let ghost mi = melds as int;
    let ghost ti = tatsu as int;
    let ghost i = idx as int;
    let ghost mut acc = none_pair();
    let mut c = *counts;
    // two triplets, one triplet
    if c[idx] >= 3 {
        c[idx] = c[idx] - 3;
        if c[idx] >= 3 {
            let mut c2 = c;
            c2[idx] = c2[idx] - 3;
            proof {
                lemma_csum_update(c0, i, (c0[i] - 6) as u8);
                assert(c2@ =~= dec(c0, i, 6));
                lemma_upd_assoc(b0, acc, search(dec(c0, i, 6), i, mi + 2, ti));
            }
            count_recursive(&c2, idx, melds + 2, tatsu, best_melds, best_tatsu);
            proof {
                acc = upd(acc, search(dec(c0, i, 6), i, mi + 2, ti));
            }
        } else {
            proof {
                lemma_upd_assoc(b0, acc, none_pair());
                acc = upd(acc, none_pair());
            }
        }
        proof {
            lemma_csum_update(c0, i, (c0[i] - 3) as u8);
            assert(c@ =~= dec(c0, i, 3));
            lemma_upd_assoc(b0, acc, search(dec(c0, i, 3), i, mi + 1, ti));
        }
        count_recursive(&c, idx, melds + 1, tatsu, best_melds, best_tatsu);
        proof {
            acc = upd(acc, search(dec(c0, i, 3), i, mi + 1, ti));
        }
        c[idx] = c[idx] + 3;
    } else {
        proof {
            lemma_upd_assoc(b0, acc, none_pair());
            acc = upd(acc, none_pair());
            lemma_upd_assoc(b0, acc, none_pair());
            acc = upd(acc, none_pair());
        }
    }
    assert(c@ =~= c0);
    assert((*best_melds as int, *best_tatsu as int) == upd(b0, acc));
    // a run starting here
    let ghost run_c = dec(dec(dec(c0, i, 1), i + 1, 1), i + 2, 1);
    if idx < 27 && (idx % 9) <= 6 && c[idx] > 0 && c[idx + 1] > 0 && c[idx + 2] > 0 {
        c[idx] = c[idx] - 1;
        c[idx + 1] = c[idx + 1] - 1;
        c[idx + 2] = c[idx + 2] - 1;
        proof {
            lemma_csum_update(c0, i, (c0[i] - 1) as u8);
            lemma_csum_update(dec(c0, i, 1), i + 1, (c0[i + 1] - 1) as u8);
            lemma_csum_update(dec(dec(c0, i, 1), i + 1, 1), i + 2, (c0[i + 2] - 1) as u8);
            assert(c@ =~= run_c);
            lemma_upd_assoc(b0, acc, search(run_c, i, mi + 1, ti));
        }
        count_recursive(&c, idx, melds + 1, tatsu, best_melds, best_tatsu);
        proof {
            acc = upd(acc, search(run_c, i, mi + 1, ti));
        }
        c[idx] = c[idx] + 1;
        c[idx + 1] = c[idx + 1] + 1;
        c[idx + 2] = c[idx + 2] + 1;
    } else {
        proof {
            lemma_upd_assoc(b0, acc, none_pair());
            acc = upd(acc, none_pair());
        }
    }
    assert(c@ =~= c0);
    assert((*best_melds as int, *best_tatsu as int) == upd(b0, acc));
    // moving on to the next kind
    let ghost rest = if c0[i] == 2 {
        search(c0, i + 1, mi, ti + 1)
    } else if c0[i] == 1 {
        upd(single_partial(c0, i, mi, ti), search(c0, i + 1, mi, ti))
    } else {
        search(c0, i + 1, mi, ti)
    };
    count_rest(counts, idx, melds, tatsu, best_melds, best_tatsu);
    proof {
        lemma_upd_assoc(b0, acc, rest);
        assert(search(c0, i, mi, ti) == upd(acc, rest));
    }
}

/// The partial run that a single tile at kind `idx` forms with the next
/// kind, else with the one after next (`none_pair()` if neither is held).
pub open spec fn single_partial(c: Seq<u8>, idx: int, m: int, t: int) -> (int, int) {
    if pair_run_start(idx) && idx + 1 < c.len() && c[idx + 1] >= 1 {
        search(dec(dec(c, idx, 1), idx + 1, 1), idx + 1, m, t + 1)
    } else if pair_run_start(idx) && run_start(idx) && idx + 2 < c.len() && c[idx + 2] >= 1 {
        search(dec(dec(c, idx, 1), idx + 2, 1), idx + 1, m, t + 1)
    } else {
        none_pair()
    }
}

/// The branches of the search that move on to the next kind.
fn count_rest(
    counts: &[u8; 34],
    idx: usize,
    melds: i32,
    tatsu: i32,
    best_melds: &mut i32,
    best_tatsu: &mut i32,
)
    requires
        idx < 34,
        counts@[idx as int] > 0,
        0 <= melds,
        0 <= tatsu,
        3 * melds + tatsu + csum(counts@) <= 8670 + idx,
        0 <= *old(best_melds),
        0 <= *old(best_tatsu),
        3 * *old(best_melds) + *old(best_tatsu) <= 8704,
    ensures
        (*final(best_melds) as int, *final(best_tatsu) as int) == upd(
            (*old(best_melds) as int, *old(best_tatsu) as int),
            if counts@[idx as int] == 2 {
                search(counts@, idx + 1, melds as int, tatsu + 1)
            } else if counts@[idx as int] == 1 {
                upd(single_partial(counts@, idx as int, melds as int, tatsu as int), search(counts@, idx + 1, melds as int, tatsu as int))
            } else {
                search(counts@, idx + 1, melds as int, tatsu as int)
            },
        ),
        0 <= *final(best_melds),
        0 <= *final(best_tatsu),
        3 * *final(best_melds) + *final(best_tatsu) <= 8704,
    decreases csum(counts@), 34 - idx, 0int,
{
    let ghost b0 = (*best_melds as int, *best_tatsu as int);
    let ghost c0 = counts@;
    let ghost i = idx as int;
    proof {
        lemma_csum_bound(counts@);
    }
    if counts[idx] == 2 {
        count_recursive(counts, idx + 1, melds, tatsu + 1, best_melds, best_tatsu);
    } else if counts[idx] == 1 {
        let ghost part = single_partial(c0, i, melds as int, tatsu as int);
        if idx < 27 && (idx % 9) <= 7 && counts[idx + 1] >= 1 {
            let mut c2 = *counts;
            c2[idx] = c2[idx] - 1;
            c2[idx + 1] = c2[idx + 1] - 1;
            proof {
                lemma_csum_update(c0, i, (c0[i] - 1) as u8);
                lemma_csum_update(dec(c0, i, 1), i + 1, (c0[i + 1] - 1) as u8);
                assert(c2@ =~= dec(dec(c0, i, 1), i + 1, 1));
            }
            count_recursive(&c2, idx + 1, melds, tatsu + 1, best_melds, best_tatsu);
        } else if idx < 27 && (idx % 9) <= 6 && counts[idx + 2] >= 1 {
            let mut c2 = *counts;
            c2[idx] = c2[idx] - 1;
            c2[idx + 2] = c2[idx + 2] - 1;
            proof {
                lemma_csum_update(c0, i, (c0[i] - 1) as u8);
                lemma_csum_update(dec(c0, i, 1), i + 2, (c0[i + 2] - 1) as u8);
                assert(c2@ =~= dec(dec(c0, i, 1), i + 2, 1));
            }
            count_recursive(&c2, idx + 1, melds, tatsu + 1, best_melds, best_tatsu);
        }
        let ghost b1 = (*best_melds as int, *best_tatsu as int);
        assert(b1 == upd(b0, part));
        count_recursive(counts, idx + 1, melds, tatsu, best_melds, best_tatsu);
        proof {
            lemma_upd_assoc(b0, part, search(c0, i + 1, melds as int, tatsu as int));
        }
    } else {
        count_recursive(counts, idx + 1, melds, tatsu, best_melds, best_tatsu);
    }
}

/// The best (melds, partial melds) pair over the whole search tree: disjoint
/// melds and partial melds taken from the counts, ranked at least as high as
/// every split of all the tiles into melds.
fn count_melds_and_tatsu(counts: &[u8; 34]) -> (r: (i32, i32))
    ensures
        (r.0 as int, r.1 as int) == search(counts@, 0, 0, 0),
        r.0 >= 0,
        r.1 >= 0,
        3 * r.0 + r.1 <= 8704,
        holds_sets(counts@, 0, r.0 as int, r.1 as int),
        forall|n: int| #[trigger] decomposes(counts@, n) ==> ranks_ge((r.0 as int, r.1 as int), (n, 0)),
{
    let mut best_melds = 0i32;
    let mut best_tatsu = 0i32;
    proof {
        lemma_csum_bound(counts@);
        lemma_search_bounds(counts@, 0, 0, 0);
        lemma_search_holds(counts@, 0, 0, 0);
        assert forall|n: int| #[trigger] decomposes(counts@, n) implies ranks_ge(search(counts@, 0, 0, 0), (n, 0)) by {
            lemma_search_complete(counts@, 0, 0, 0, n);
        }
    }
    count_recursive(counts, 0, 0, 0, &mut best_melds, &mut best_tatsu);
    (best_melds, best_tatsu)
}

// ── shanten ───────────────────────────────────────────────────

pub open spec fn imin(a: int, b: int) -> int {
    if a <= b {
        a
    } else {
        b
    }
}

/// Shanten of a standard-shape evaluation: `8 - 2 * melds - min(partials, 4 - melds)`.
pub open spec fn form_value(mt: (int, int)) -> int {
    8 - 2 * mt.0 - imin(mt.1, 4 - mt.0)
}

/// Standard-shape shanten with kind `h` taken as the pair.
pub open spec fn head_value(c: Seq<u8>, h: int) -> int {
    form_value(search(dec(c, h, 2), 0, 0, 0)) - 1
}

/// Least head value over the kinds `0..n` that hold a pair (8 if none).
pub open spec fn best_head(c: Seq<u8>, n: int) -> int
    decreases n,
{
    if n <= 0 {
        8
    } else if c[n - 1] >= 2 {
        imin(best_head(c, n - 1), head_value(c, n - 1))
    } else {
        best_head(c, n - 1)
    }
}

/// The thirteen terminal and honour kinds.
pub open spec fn yaochu_kinds() -> Seq<int> {
    seq![0int, 8, 9, 17, 18, 26, 27, 28, 29, 30, 31, 32, 33]
}

/// Number of the first `n` terminal/honour kinds that are held.
pub open spec fn yaochu_held(c: Seq<u8>, n: int) -> int
    decreases n,
{
    if n <= 0 {
        0
    } else {
        yaochu_held(c, n - 1) + (if c[yaochu_kinds()[n - 1]] > 0 { 1int } else { 0int })
    }
}

/// Number of the first `n` terminal/honour kinds held at least twice.
pub open spec fn yaochu_paired(c: Seq<u8>, n: int) -> int
    decreases n,
{
    if n <= 0 {
        0
    } else {
        yaochu_paired(c, n - 1) + (if c[yaochu_kinds()[n - 1]] >= 2 { 1int } else { 0int })
    }
}

/// Number of kinds among `0..n` held at least twice.
pub open spec fn paired_kinds(c: Seq<u8>, n: int) -> int
    decreases n,
{
    if n <= 0 {
        0
    } else {
        paired_kinds(c, n - 1) + (if c[n - 1] >= 2 { 1int } else { 0int })
    }
}

/// Thirteen-orphans shanten.
pub open spec fn kokushi_value(c: Seq<u8>) -> int {
    if yaochu_paired(c, 13) > 0 {
        12 - yaochu_held(c, 13)
    } else {
        13 - yaochu_held(c, 13)
    }
}

/// Seven-pairs shanten.
pub open spec fn chiitoi_value(c: Seq<u8>) -> int {
    6 - paired_kinds(c, 34)
}

/// The shanten number of a count array: the least of the standard shape
/// (with every possible pair, and without a pair), thirteen orphans and
/// seven pairs.
pub open spec fn shanten_value(c: Seq<u8>) -> int {
    imin(
        imin(imin(best_head(c, 34), form_value(search(c, 0, 0, 0))), kokushi_value(c)),
        chiitoi_value(c),
    )
}

/// Shanten number of a hand: -1 = complete, 0 = tenpai, n = n tiles from tenpai.
pub fn shanten(hand: &[i32]) -> (r: i32)
    requires
        hand_fits(hand@),
    ensures
        r == shanten_value(counts_of(hand@)),
{
    let counts = hand_to_counts(hand);
    shanten_from_counts(&counts)
}

/// Shanten number straight from a count array.
fn shanten_from_counts(counts: &[u8; 34]) -> (r: i32)
    ensures
        r == shanten_value(counts@),
{
    let mut best = 8i32;
    let mut head: usize = 0;
    while head < 34
        invariant
            0 <= head <= 34,
            best == best_head(counts@, head as int),
            -8704 <= best <= 8,
        decreases 34 - head,
    {
        if counts[head] >= 2 {
            let mut c = *counts;
            c[head] = c[head] - 2;
            assert(c@ =~= dec(counts@, head as int, 2));
            let melds = count_melds_and_tatsu(&c);
            let partial = if melds.1 < 4 - melds.0 { melds.1 } else { 4 - melds.0 };
            let shanten_val = 8 - 2 * melds.0 - partial - 1;
            if shanten_val < best {
                best = shanten_val;
            }
        }
        head = head + 1;
    }
    let melds = count_melds_and_tatsu(counts);
    let partial = if melds.1 < 4 - melds.0 { melds.1 } else { 4 - melds.0 };
    let shanten_val = 8 - 2 * melds.0 - partial;
    if shanten_val < best {
        best = shanten_val;
    }
    // thirteen orphans
    let yaochu_idx: [usize; 13] = [0, 8, 9, 17, 18, 26, 27, 28, 29, 30, 31, 32, 33];
    assert(yaochu_idx@ =~= yaochu_kinds().map_values(|i: int| i as usize));
    let mut kinds = 0i32;
    let mut pairs = 0i32;
    let mut j: usize = 0;
    while j < 13
        invariant
            0 <= j <= 13,
            yaochu_idx@ =~= yaochu_kinds().map_values(|i: int| i as usize),
            kinds == yaochu_held(counts@, j as int),
            pairs == yaochu_paired(counts@, j as int),
            0 <= pairs <= j,
            0 <= kinds <= j,
        decreases 13 - j,
    {
        let i = yaochu_idx[j];
        if counts[i] > 0 {
            kinds = kinds + 1;
        }
        if counts[i] >= 2 {
            pairs = pairs + 1;
        }
        j = j + 1;
    }
    let kokushi_shanten = if pairs > 0 { 13 - kinds - 1 } else { 13 - kinds };
    if kokushi_shanten < best {
        best = kokushi_shanten;
    }
    // seven pairs
    let mut npairs = 0i32;
    let mut k: usize = 0;
    while k < 34
        invariant
            0 <= k <= 34,
            npairs == paired_kinds(counts@, k as int),
            0 <= npairs <= k,
        decreases 34 - k,
    {
        if counts[k] >= 2 {
            npairs = npairs + 1;
        }
        k = k + 1;
    }
    let chiitoi_shanten = 6 - npairs;
    if chiitoi_shanten < best {
        best = chiitoi_shanten;
    }
    best
}

// ── complete hands ────────────────────────────────────────────

/// A meld: `(true, k)` is a triplet of kind `k`, `(false, k)` a run of the
/// kinds `k, k+1, k+2`.
pub open spec fn meld_ok(md: (bool, int)) -> bool {
    if md.0 {
        0 <= md.1 < 34
    } else {
        run_start(md.1)
    }
}

/// How many tiles of kind `i` the meld holds.
pub open spec fn meld_cover(md: (bool, int), i: int) -> int {
    if md.0 {
        if i == md.1 {
            3
        } else {
            0
        }
    } else if md.1 <= i <= md.1 + 2 {
        1
    } else {
        0
    }
}

/// How many tiles of kind `i` a list of melds holds.
pub open spec fn cover(ms: Seq<(bool, int)>, i: int) -> int
    decreases ms.len(),
{
    if ms.len() == 0 {
        0
    } else {
        cover(ms.drop_last(), i) + meld_cover(ms.last(), i)
    }
}

/// `ms` is a list of melds whose tiles are exactly the counts `c`.
pub open spec fn partitions(ms: Seq<(bool, int)>, c: Seq<u8>) -> bool {
    &&& forall|j: int| 0 <= j < ms.len() ==> meld_ok(#[trigger] ms[j])
    &&& forall|i: int| 0 <= i < 34 ==> #[trigger] cover(ms, i) == c[i]
}

/// The counts `c` split into exactly `n` melds (triplets and runs).
pub open spec fn decomposes(c: Seq<u8>, n: int) -> bool {
    exists|ms: Seq<(bool, int)>| ms.len() == n && #[trigger] partitions(ms, c)
}

proof fn lemma_cover_nonneg(ms: Seq<(bool, int)>, i: int)
    ensures
        cover(ms, i) >= 0,
    decreases ms.len(),
{
    if ms.len() > 0 {
        lemma_cover_nonneg(ms.drop_last(), i);
    }
}

proof fn lemma_cover_push(ms: Seq<(bool, int)>, x: (bool, int), i: int)
    ensures
        cover(ms.push(x), i) == cover(ms, i) + meld_cover(x, i),
{
    assert(ms.push(x).drop_last() =~= ms);
}

proof fn lemma_cover_remove(ms: Seq<(bool, int)>, j: int, i: int)
    requires
        0 <= j < ms.len(),
    ensures
        cover(ms.remove(j), i) == cover(ms, i) - meld_cover(ms[j], i),
    decreases ms.len(),
{
    if j == ms.len() - 1 {
        assert(ms.remove(j) =~= ms.drop_last());
    } else {
        assert(ms.remove(j).drop_last() =~= ms.drop_last().remove(j));
        assert(ms.remove(j).last() == ms.last());
        lemma_cover_remove(ms.drop_last(), j, i);
    }
}

/// A kind with a positive cover is held by some meld of the list.
proof fn lemma_cover_witness(ms: Seq<(bool, int)>, i: int) -> (j: int)
    requires
        cover(ms, i) > 0,
    ensures
        0 <= j < ms.len(),
        meld_cover(ms[j], i) > 0,
    decreases ms.len(),
{
    if meld_cover(ms.last(), i) > 0 {
        (ms.len() - 1) as int
    } else {
        lemma_cover_witness(ms.drop_last(), i)
    }
}

/// The kinds below the first held kind `f` are empty in every partition, so
/// the meld holding `f` starts at `f`.
proof fn lemma_first_meld(c: Seq<u8>, n: int, f: int) -> (ms: Seq<(bool, int)>)
    requires
        c.len() == 34,
        0 <= f < 34,
        c[f] > 0,
        forall|i: int| 0 <= i < f ==> c[i] == 0,
        decomposes(c, n),
    ensures
        ms.len() == n,
        partitions(ms, c),
        ms.len() > 0,
        ms.last().1 == f,
        meld_ok(ms.last()),
{
    let ms0 = choose|ms: Seq<(bool, int)>| ms.len() == n && #[trigger] partitions(ms, c);
    assert(cover(ms0, f) == c[f]);
    let j = lemma_cover_witness(ms0, f);
    let md = ms0[j];
    assert(meld_ok(md));
    if md.1 < f {
        lemma_cover_remove(ms0, j, md.1);
        lemma_cover_nonneg(ms0.remove(j), md.1);
        assert(cover(ms0, md.1) == c[md.1]);
    }
    let ms = ms0.remove(j).push(md);
    assert forall|i: int| 0 <= i < 34 implies #[trigger] cover(ms, i) == c[i] by {
        lemma_cover_remove(ms0, j, i);
        lemma_cover_push(ms0.remove(j), md, i);
        assert(cover(ms0, i) == c[i]);
    }
    assert forall|k: int| 0 <= k < ms.len() implies meld_ok(#[trigger] ms[k]) by {
        if k < ms.len() - 1 {
            if k < j {
                assert(ms[k] == ms0[k]);
            } else {
                assert(ms[k] == ms0[k + 1]);
            }
        }
    }
    ms
}

/// Removing the last meld of a partition partitions the remaining tiles.
proof fn lemma_partition_pop(ms: Seq<(bool, int)>, c: Seq<u8>, c2: Seq<u8>)
    requires
        ms.len() > 0,
        partitions(ms, c),
        c.len() == 34,
        c2.len() == 34,
        forall|i: int| 0 <= i < 34 ==> c2[i] == c[i] - meld_cover(ms.last(), i),
    ensures
        partitions(ms.drop_last(), c2),
{
    assert forall|i: int| 0 <= i < 34 implies #[trigger] cover(ms.drop_last(), i) == c2[i] by {
        assert(cover(ms, i) == c[i]);
    }
    assert forall|k: int| 0 <= k < ms.drop_last().len() implies meld_ok(#[trigger] ms.drop_last()[k]) by {
        assert(ms.drop_last()[k] == ms[k]);
    }
}

/// Adding a meld to a partition of `c2` partitions the counts with its tiles added.
proof fn lemma_partition_push(ms: Seq<(bool, int)>, md: (bool, int), c: Seq<u8>, c2: Seq<u8>)
    requires
        partitions(ms, c2),
        meld_ok(md),
        c.len() == 34,
        c2.len() == 34,
        forall|i: int| 0 <= i < 34 ==> c2[i] == c[i] - meld_cover(md, i),
    ensures
        partitions(ms.push(md), c),
{
    assert forall|i: int| 0 <= i < 34 implies #[trigger] cover(ms.push(md), i) == c[i] by {
        lemma_cover_push(ms, md, i);
        assert(cover(ms, i) == c2[i]);
    }
    assert forall|k: int| 0 <= k < ms.push(md).len() implies meld_ok(#[trigger] ms.push(md)[k]) by {
        if k < ms.len() {
            assert(ms.push(md)[k] == ms[k]);
        }
    }
}

/// Whether the counts split into exactly `melds_needed` melds.
fn can_form_all_melds(counts: &[u8; 34], melds_needed: i32) -> (r: bool)
    requires
        i32::MIN + csum(counts@) <= melds_needed,
    ensures
        r == decomposes(counts@, melds_needed as int),
    decreases csum(counts@),
{
    let ghost c = counts@;
    proof {
        lemma_csum_bound(c);
    }
    // the first held kind
    let mut first: usize = 0;
    while first < 34 && counts[first] == 0
        invariant
            0 <= first <= 34,
            c == counts@,
            forall|i: int| 0 <= i < first ==> c[i] == 0,
        decreases 34 - first,
    {
        first = first + 1;
    }
    if melds_needed == 0 {
        let r = first == 34;
        proof {
            let e = Seq::<(bool, int)>::empty();
            if r {
                assert(partitions(e, c));
            } else {
                if decomposes(c, 0) {
                    let ms = choose|ms: Seq<(bool, int)>| ms.len() == 0 && #[trigger] partitions(ms, c);
                    assert(cover(ms, first as int) == c[first as int]);
                }
            }
        }
        return r;
    }
    if first == 34 {
        proof {
            if decomposes(c, melds_needed as int) {
                let ms = choose|ms: Seq<(bool, int)>| ms.len() == melds_needed && #[trigger] partitions(ms, c);
                let md = ms.last();
                assert(meld_ok(ms[ms.len() - 1]));
                let i = md.1;
                lemma_cover_remove(ms, ms.len() - 1, i);
                lemma_cover_nonneg(ms.remove(ms.len() - 1), i);
                assert(cover(ms, i) == c[i]);
            }
        }
        return false;
    }
    let f = first;
    let ghost fi = f as int;
    let ghost trip = (true, fi);
    let ghost run = (false, fi);
    let mut cc = *counts;
    if cc[f] >= 3 {
        cc[f] = cc[f] - 3;
        proof {
            lemma_csum_update(c, fi, (c[fi] - 3) as u8);
        }
        if can_form_all_melds(&cc, melds_needed - 1) {
            proof {
                let ms = choose|ms: Seq<(bool, int)>| ms.len() == melds_needed - 1 && #[trigger] partitions(ms, cc@);
                lemma_partition_push(ms, trip, c, cc@);
                assert(ms.push(trip).len() == melds_needed);
            }
            return true;
        }
        cc[f] = cc[f] + 3;
    }
    assert(cc@ =~= c);
    let ghost run_c = dec(dec(dec(c, fi, 1), fi + 1, 1), fi + 2, 1);
    if f < 27 && (f % 9) <= 6 && cc[f] > 0 && cc[f + 1] > 0 && cc[f + 2] > 0 {
        cc[f] = cc[f] - 1;
        cc[f + 1] = cc[f + 1] - 1;
        cc[f + 2] = cc[f + 2] - 1;
        proof {
            lemma_csum_update(c, fi, (c[fi] - 1) as u8);
            lemma_csum_update(dec(c, fi, 1), fi + 1, (c[fi + 1] - 1) as u8);
            lemma_csum_update(dec(dec(c, fi, 1), fi + 1, 1), fi + 2, (c[fi + 2] - 1) as u8);
            assert(cc@ =~= run_c);
        }
        if can_form_all_melds(&cc, melds_needed - 1) {
            proof {
                let ms = choose|ms: Seq<(bool, int)>| ms.len() == melds_needed - 1 && #[trigger] partitions(ms, cc@);
                lemma_partition_push(ms, run, c, cc@);
                assert(ms.push(run).len() == melds_needed);
            }
            return true;
        }
    }
    proof {
        if decomposes(c, melds_needed as int) {
            let ms = lemma_first_meld(c, melds_needed as int, fi);
            let md = ms.last();
            assert(cover(ms, fi) == c[fi]);
            lemma_cover_remove(ms, ms.len() - 1, fi);
            lemma_cover_nonneg(ms.remove(ms.len() - 1), fi);
            assert(ms.remove(ms.len() - 1) =~= ms.drop_last());
            if md.0 {
                lemma_partition_pop(ms, c, dec(c, fi, 3));
                assert(decomposes(dec(c, fi, 3), melds_needed - 1));
            } else {
                lemma_cover_remove(ms, ms.len() - 1, fi + 1);
                lemma_cover_nonneg(ms.remove(ms.len() - 1), fi + 1);
                lemma_cover_remove(ms, ms.len() - 1, fi + 2);
                lemma_cover_nonneg(ms.remove(ms.len() - 1), fi + 2);
                assert(cover(ms, fi + 1) == c[fi + 1]);
                assert(cover(ms, fi + 2) == c[fi + 2]);
                lemma_partition_pop(ms, c, run_c);
                assert(decomposes(run_c, melds_needed - 1));
            }
        }
    }
    false
}

/// All thirteen terminal/honour kinds are held and at least one twice.
pub open spec fn kokushi_shape(c: Seq<u8>) -> bool {
    &&& forall|j: int| 0 <= j < 13 ==> c[#[trigger] yaochu_kinds()[j]] >= 1
    &&& exists|j: int| 0 <= j < 13 && c[#[trigger] yaochu_kinds()[j]] >= 2
}

/// Number of kinds among `0..n` held exactly twice.
pub open spec fn exact_pairs(c: Seq<u8>, n: int) -> int
    decreases n,
{
    if n <= 0 {
        0
    } else {
        exact_pairs(c, n - 1) + (if c[n - 1] == 2 { 1int } else { 0int })
    }
}

/// Some kind held at least twice leaves four melds once that pair is taken.
pub open spec fn standard_shape(c: Seq<u8>) -> bool {
    exists|h: int| 0 <= h < 34 && c[h] >= 2 && #[trigger] decomposes(dec(c, h, 2), 4)
}

/// A winning shape: `3n+2` tiles forming four melds and a pair, thirteen
/// orphans, or seven pairs.
pub open spec fn agari_shape(c: Seq<u8>, len: int) -> bool {
    len % 3 == 2 && (standard_shape(c) || kokushi_shape(c) || exact_pairs(c, 34) == 7)
}

/// Thirteen-orphans shape test.
fn is_kokushi(counts: &[u8; 34]) -> (r: bool)
    ensures
        r == kokushi_shape(counts@),
{
    let yaochu_idx: [usize; 13] = [0, 8, 9, 17, 18, 26, 27, 28, 29, 30, 31, 32, 33];
    assert(yaochu_idx@ =~= yaochu_kinds().map_values(|i: int| i as usize));
    let mut has_all = true;
    let mut has_pair = false;
    let mut j: usize = 0;
    while j < 13
        invariant
            0 <= j <= 13,
            yaochu_idx@ =~= yaochu_kinds().map_values(|i: int| i as usize),
            has_all == (forall|k: int| 0 <= k < j ==> counts@[#[trigger] yaochu_kinds()[k]] >= 1),
            has_pair == (exists|k: int| 0 <= k < j && counts@[#[trigger] yaochu_kinds()[k]] >= 2),
        decreases 13 - j,
    {
        let i = yaochu_idx[j];
        if counts[i] < 1 {
            has_all = false;
        }
        if counts[i] >= 2 {
            has_pair = true;
        }
        j = j + 1;
    }
    has_all && has_pair
}

/// Whether the hand is a complete (winning) shape.
pub fn is_agari(hand: &[i32]) -> (r: bool)
    requires
        hand.len() % 3 == 2 ==> hand_fits(hand@),
    ensures
        r == agari_shape(counts_of(hand@), hand.len() as int),
{
    if hand.len() % 3 != 2 {
        return false;
    }
    let counts = hand_to_counts(hand);
    let ghost c = counts@;
    let mut head: usize = 0;
    while head < 34
        invariant
            0 <= head <= 34,
            c == counts@,
            c == counts_of(hand@),
            hand.len() % 3 == 2,
            forall|h: int| 0 <= h < head && c[h] >= 2 ==> !decomposes(#[trigger] dec(c, h, 2), 4),
        decreases 34 - head,
    {
        if counts[head] >= 2 {
            let mut cc = counts;
            cc[head] = cc[head] - 2;
            assert(cc@ =~= dec(c, head as int, 2));
            proof {
                lemma_csum_bound(cc@);
            }
            if can_form_all_melds(&cc, 4) {
                assert(standard_shape(c));
                return true;
            }
        }
        head = head + 1;
    }
    assert(!standard_shape(c));
    if is_kokushi(&counts) {
        return true;
    }
    let mut npairs: usize = 0;
    let mut k: usize = 0;
    while k < 34
        invariant
            0 <= k <= 34,
            npairs == exact_pairs(c, k as int),
            c == counts@,
            npairs <= k,
        decreases 34 - k,
    {
        if counts[k] == 2 {
            npairs = npairs + 1;
        }
        k = k + 1;
    }
    npairs == 7
}

// ── tenpai ────────────────────────────────────────────────────

/// The waits among the kinds `0..n`: each kind held fewer than four times
/// whose addition brings the shanten below zero, repeated once per copy
/// still unseen (four minus the count held), as its representative id.
pub open spec fn waits(c: Seq<u8>, n: int) -> Seq<i32>
    decreases n,
{
    if n <= 0 {
        Seq::empty()
    } else {
        let k = n - 1;
        if c[k] < 4 && shanten_value(c.update(k, (c[k] + 1) as u8)) < 0 {
            waits(c, k) + Seq::new((4 - c[k]) as nat, |_j: int| k as i32)
        } else {
            waits(c, k)
        }
    }
}

/// The waits of a hand: `Some(tiles)` listing each winning tile once per
/// unseen copy, or `None` when no tile completes it.
pub fn is_tenpai(hand: &[i32]) -> (r: Option<Vec<i32>>)
    requires
        hand_fits(hand@),
    ensures
        match r {
            None => waits(counts_of(hand@), 34).len() == 0,
            Some(w) => w@ == waits(counts_of(hand@), 34) && w@.len() > 0,
        },
{
    let counts = hand_to_counts(hand);
    let ghost c = counts@;
    let mut waiting: Vec<i32> = Vec::new();
    let mut i: usize = 0;
    while i < 34
        invariant
            0 <= i <= 34,
            c == counts@,
            waiting@ == waits(c, i as int),
            waiting@.len() <= 4 * i,
        decreases 34 - i,
    {
        if counts[i] < 4 {
            let mut cc = counts;
            cc[i] = cc[i] + 1;
            assert(cc@ =~= c.update(i as int, (c[i as int] + 1) as u8));
            if shanten_from_counts(&cc) < 0 {
                let remaining = 4 - counts[i] as i32;
                let ghost before = waiting@;
                let mut n: i32 = 0;
                while n < remaining
                    invariant
                        0 <= n <= remaining,
                        remaining == 4 - c[i as int],
                        waiting@ == before + Seq::new(n as nat, |_j: int| i as i32),
                        i < 34,
                    decreases remaining - n,
                {
                    waiting.push(index34_to_id(i));
                    n = n + 1;
                    assert(waiting@ =~= before + Seq::new(n as nat, |_j: int| i as i32));
                }
            }
        }
        i = i + 1;
    }
    if waiting.len() == 0 {
        None
    } else {
        Some(waiting)
    }
}

// ── simplified scoring ────────────────────────────────────────

/// Points breakdown of a win.
#[derive(Debug, Clone)]
pub struct Payment {
    /// What the discarder pays on a ron.
    pub ron: i32,
    /// What each non-dealer pays on a tsumo.
    pub tsumo_ko: i32,
    /// What the dealer pays on a non-dealer tsumo (0 on a dealer tsumo).
    pub tsumo_oya: i32,
}

/// Result of the score calculation.
#[derive(Debug, Clone)]
pub struct AgariScore {
    /// Fu, rounded up to a multiple of ten.
    pub fu: i32,
    /// Han.
    pub han: i32,
    /// Basic points.
    pub base_points: i32,
    /// The payments.
    pub payment: Payment,
}

/// Whether kind `i` is a terminal or an honour.
pub open spec fn is_yaochu(i: int) -> bool {
    i == 0 || i == 8 || i == 9 || i == 17 || i == 18 || i == 26 || 27 <= i <= 33
}

/// Fu for the tiles of one kind: a set of three (or more) is worth 2, a
/// four-of-a-kind 8, doubled for terminals and honours.
pub open spec fn kind_fu(i: int, n: u8) -> int {
    if n >= 3 {
        if n == 4 {
            if is_yaochu(i) {
                16
            } else {
                8
            }
        } else if is_yaochu(i) {
            4
        } else {
            2
        }
    } else {
        0
    }
}

/// Sum of the set fu over the kinds `0..n`.
pub open spec fn sets_fu(c: Seq<u8>, n: int) -> int
    decreases n,
{
    if n <= 0 {
        0
    } else {
        sets_fu(c, n - 1) + kind_fu(n - 1, c[n - 1])
    }
}

/// Some honour kind is held at least twice.
pub open spec fn honour_pair(c: Seq<u8>) -> bool {
    exists|i: int| 27 <= i < 34 && c[i] >= 2
}

/// Fu before rounding: 20, +10 for a closed ron, +2 for tsumo, +2 for an
/// honour pair, plus the set fu.
pub open spec fn raw_fu(c: Seq<u8>, is_menzen: bool, is_tsumo: bool) -> int {
    20 + (if is_menzen && !is_tsumo { 10int } else { 0int }) + (if is_tsumo { 2int } else { 0int }) + (if honour_pair(c) { 2int } else { 0int }) + sets_fu(c, 34)
}

/// Fu rounded up to a multiple of ten, at least 20.
pub open spec fn rounded_fu(f: int) -> int {
    let r = ((f + 9) / 10) * 10;
    if r < 20 {
        20
    } else {
        r
    }
}

/// Basic points: limit hands by han, otherwise `fu * 2^(2 + han)` capped at 2000.
pub open spec fn base_points(fu: int, han: int) -> int {
    if han == 5 {
        2000
    } else if han == 6 || han == 7 {
        3000
    } else if 8 <= han <= 10 {
        4000
    } else if han == 11 || han == 12 {
        6000
    } else if han >= 13 {
        8000
    } else {
        imin(fu * vstd::arithmetic::power2::pow2((2 + han) as nat), 2000)
    }
}

/// Simplified score: fu from the basic parts of the hand, then the points table.
///
/// `han` is the han total counted by the caller; the yaku themselves are not
/// checked here.
pub fn calc_score(
    hand: &[i32],
    _agari_tile: i32,
    is_menzen: bool,
    is_tsumo: bool,
    is_oya: bool,
    han: i32,
) -> (r: AgariScore)
    requires
        hand_fits(hand@),
        han >= -2,
    ensures
        r.fu == rounded_fu(raw_fu(counts_of(hand@), is_menzen, is_tsumo)),
        r.fu % 10 == 0,
        r.fu >= 20,
        r.han == han,
        r.base_points == base_points(r.fu as int, han as int),
        is_oya ==> r.payment.ron == 6 * r.base_points && r.payment.tsumo_oya == 0 && r.payment.tsumo_ko == 2 * r.base_points,
        !is_oya ==> r.payment.ron == 4 * r.base_points && r.payment.tsumo_oya == 2 * r.base_points && r.payment.tsumo_ko == r.base_points,
{
    let counts = hand_to_counts(hand);
    let ghost c = counts@;
    let mut fu: i32 = 20;
    if is_menzen && !is_tsumo {
        fu = fu + 10;
    }
    if is_tsumo {
        fu = fu + 2;
    }
    // honour pair
    let mut i: usize = 27;
    let mut found = false;
    while i < 34
        invariant
            27 <= i <= 34,
            c == counts@,
            found ==> honour_pair(c),
            !found ==> forall|k: int| 27 <= k < i ==> c[k] < 2,
        ensures
            found ==> honour_pair(c),
            !found ==> forall|k: int| 27 <= k < 34 ==> c[k] < 2,
        decreases 34 - i,
    {
        if counts[i] >= 2 {
            found = true;
            break;
        }
        i = i + 1;
    }
    assert(found == honour_pair(c));
    if found {
        fu = fu + 2;
    }
    let ghost fu0 = fu as int;
    // sets
    let mut k: usize = 0;
    while k < 34
        invariant
            0 <= k <= 34,
            c == counts@,
            fu == fu0 + sets_fu(c, k as int),
            0 <= sets_fu(c, k as int) <= 16 * k,
            20 <= fu0 <= 34,
        decreases 34 - k,
    {
        if counts[k] >= 3 {
            let is_yaochu = k == 0 || k == 8 || k == 9 || k == 17 || k == 18 || k == 26 || k >= 27;
            fu = fu + if counts[k] == 4 {
                if is_yaochu { 16 } else { 8 }
            } else {
                if is_yaochu { 4 } else { 2 }
            };
        }
        k = k + 1;
    }
    fu = ((fu + 9) / 10) * 10;
    if fu < 20 {
        fu = 20;
    }
    let base: i32 = if han == 5 {
        2000
    } else if han == 6 || han == 7 {
        3000
    } else if han == 8 || han == 9 || han == 10 {
        4000
    } else if han == 11 || han == 12 {
        6000
    } else if han >= 13 {
        8000
    } else {
        let shift = 2 + han;
        let mut mult: i32 = 1;
        let mut j: i32 = 0;
        proof {
            vstd::arithmetic::power2::lemma2_to64();
        }
        while j < shift
            invariant
                0 <= j <= shift <= 6,
                mult == vstd::arithmetic::power2::pow2(j as nat),
            decreases shift - j,
        {
            proof {
                vstd::arithmetic::power2::lemma_pow2_unfold((j + 1) as nat);
                vstd::arithmetic::power2::lemma_pow2_strictly_increases(j as nat, 6);
                vstd::arithmetic::power2::lemma2_to64();
            }
            mult = mult * 2;
            j = j + 1;
        }
        proof {
            vstd::arithmetic::power2::lemma2_to64();
            assert(mult <= 64) by {
                if shift < 6 {
                    vstd::arithmetic::power2::lemma_pow2_strictly_increases(shift as nat, 6);
                }
            }
            assert(fu * mult <= 600 * 64) by (nonlinear_arith)
                requires fu <= 600, mult <= 64, 0 <= fu, 0 <= mult;
        }
        let b = fu * mult;
        if b > 2000 {
            2000
        } else {
            b
        }
    };
    let payment = if is_oya {
        Payment { ron: base * 6, tsumo_oya: 0, tsumo_ko: base * 2 }
    } else {
        Payment { ron: base * 4, tsumo_oya: base * 2, tsumo_ko: base }
    };
    AgariScore { fu, han, base_points: base, payment }
}

// ── laws ──────────────────────────────────────────────────────

/// `a` ranks at least as high as `b`.
pub open spec fn ranks_ge(a: (int, int), b: (int, int)) -> bool {
    !better(a, b)
}

proof fn lemma_suffix_drop_last(c: Seq<u8>, i: int)
    requires
        0 <= i < c.len(),
    ensures
        suffix_sum(c, i) == suffix_sum(c.drop_last(), i) + c.last(),
    decreases c.len() - i,
{
    if i < c.len() - 1 {
        lemma_suffix_drop_last(c, i + 1);
        assert(c.drop_last()[i] == c[i]);
    } else {
        assert(suffix_sum(c, i + 1) == 0);
        assert(suffix_sum(c.drop_last(), i) == 0);
    }
}

proof fn lemma_suffix_csum(c: Seq<u8>)
    ensures
        suffix_sum(c, 0) == csum(c),
    decreases c.len(),
{
    if c.len() > 0 {
        lemma_suffix_drop_last(c, 0);
        lemma_suffix_csum(c.drop_last());
    }
}

/// A partition of all-zero counts has no melds.
proof fn lemma_zero_decomposes(c: Seq<u8>, n: int)
    requires
        c.len() == 34,
        forall|i: int| 0 <= i < 34 ==> c[i] == 0,
        decomposes(c, n),
    ensures
        n == 0,
{
    let ms = choose|ms: Seq<(bool, int)>| ms.len() == n && #[trigger] partitions(ms, c);
    if ms.len() > 0 {
        let md = ms.last();
        assert(meld_ok(ms[ms.len() - 1]));
        lemma_cover_remove(ms, ms.len() - 1, md.1);
        lemma_cover_nonneg(ms.remove(ms.len() - 1), md.1);
        assert(cover(ms, md.1) == c[md.1]);
    }
}

/// Soundness of the search: a result whose melds use every tile from `idx`
/// on is a decomposition of those tiles.
proof fn lemma_search_sound(c: Seq<u8>, idx: int, m: int, t: int)
    requires
        c.len() == 34,
        0 <= idx <= 34,
        0 <= m,
        0 <= t,
        forall|i: int| 0 <= i < idx ==> c[i] == 0,
        3 * (search(c, idx, m, t).0 - m) >= suffix_sum(c, idx),
    ensures
        decomposes(c, search(c, idx, m, t).0 - m),
    decreases csum(c), 34 - idx,
{
    let r = search(c, idx, m, t);
    lemma_search_bounds(c, idx, m, t);
    if idx >= 34 {
        assert(partitions(Seq::<(bool, int)>::empty(), c));
        return;
    }
    lemma_suffix_sum_step(c, idx);
    let ci = c[idx];
    if ci == 0 {
        lemma_search_sound(c, idx + 1, m, t);
        return;
    }
    // every branch that moves on to the next kind leaves tiles unused
    lemma_search_bounds(c, idx + 1, m, t);
    if ci == 2 {
        lemma_search_bounds(c, idx + 1, m, t + 1);
    }
    if ci == 1 {
        if pair_run_start(idx) && c[idx + 1] >= 1 {
            let c1 = dec(c, idx, 1);
            lemma_csum_update(c, idx, (ci - 1) as u8);
            lemma_suffix_sum_update(c1, idx + 1, (c[idx + 1] - 1) as u8, idx + 1);
            lemma_suffix_sum_update(c, idx, (ci - 1) as u8, idx + 1);
            lemma_search_bounds(dec(c1, idx + 1, 1), idx + 1, m, t + 1);
        } else if pair_run_start(idx) && run_start(idx) && c[idx + 2] >= 1 {
            let c1 = dec(c, idx, 1);
            lemma_csum_update(c, idx, (ci - 1) as u8);
            lemma_suffix_sum_update(c1, idx + 2, (c[idx + 2] - 1) as u8, idx + 1);
            lemma_suffix_sum_update(c, idx, (ci - 1) as u8, idx + 1);
            lemma_search_bounds(dec(c1, idx + 2, 1), idx + 1, m, t + 1);
        }
    }
    if ci >= 6 {
        let c6 = dec(c, idx, 6);
        lemma_csum_update(c, idx, (ci - 6) as u8);
        lemma_suffix_sum_update(c, idx, (ci - 6) as u8, idx);
        lemma_search_bounds(c6, idx, m + 2, t);
        if r == search(c6, idx, m + 2, t) {
            lemma_search_sound(c6, idx, m + 2, t);
            let ms = choose|ms: Seq<(bool, int)>| ms.len() == r.0 - m - 2 && #[trigger] partitions(ms, c6);
            let c3 = dec(c, idx, 3);
            lemma_partition_push(ms, (true, idx), c3, c6);
            lemma_partition_push(ms.push((true, idx)), (true, idx), c, c3);
            assert(ms.push((true, idx)).push((true, idx)).len() == r.0 - m);
            return;
        }
    }
    if ci >= 3 {
        let c3 = dec(c, idx, 3);
        lemma_csum_update(c, idx, (ci - 3) as u8);
        lemma_suffix_sum_update(c, idx, (ci - 3) as u8, idx);
        lemma_search_bounds(c3, idx, m + 1, t);
        if r == search(c3, idx, m + 1, t) {
            lemma_search_sound(c3, idx, m + 1, t);
            let ms = choose|ms: Seq<(bool, int)>| ms.len() == r.0 - m - 1 && #[trigger] partitions(ms, c3);
            lemma_partition_push(ms, (true, idx), c, c3);
            assert(ms.push((true, idx)).len() == r.0 - m);
            return;
        }
    }
    if run_start(idx) && c[idx + 1] > 0 && c[idx + 2] > 0 {
        let c1 = dec(c, idx, 1);
        let c2 = dec(c1, idx + 1, 1);
        let cr = dec(c2, idx + 2, 1);
        lemma_csum_update(c, idx, (ci - 1) as u8);
        lemma_csum_update(c1, idx + 1, (c[idx + 1] - 1) as u8);
        lemma_csum_update(c2, idx + 2, (c[idx + 2] - 1) as u8);
        lemma_suffix_sum_update(c, idx, (ci - 1) as u8, idx);
        lemma_suffix_sum_update(c1, idx + 1, (c[idx + 1] - 1) as u8, idx);
        lemma_suffix_sum_update(c2, idx + 2, (c[idx + 2] - 1) as u8, idx);
        lemma_search_bounds(cr, idx, m + 1, t);
        if r == search(cr, idx, m + 1, t) {
            lemma_search_sound(cr, idx, m + 1, t);
            let ms = choose|ms: Seq<(bool, int)>| ms.len() == r.0 - m - 1 && #[trigger] partitions(ms, cr);
            lemma_partition_push(ms, (false, idx), c, cr);
            assert(ms.push((false, idx)).len() == r.0 - m);
            return;
        }
    }
}

/// Completeness of the search: a decomposition of the tiles from `idx` on
/// into `n` melds is matched or beaten by the search result.
proof fn lemma_search_complete(c: Seq<u8>, idx: int, m: int, t: int, n: int)
    requires
        c.len() == 34,
        0 <= idx <= 34,
        0 <= m,
        0 <= t,
        forall|i: int| 0 <= i < idx ==> c[i] == 0,
        decomposes(c, n),
    ensures
        ranks_ge(search(c, idx, m, t), (m + n, t)),
    decreases csum(c), 34 - idx,
{
    lemma_search_bounds(c, idx, m, t);
    if idx >= 34 {
        lemma_zero_decomposes(c, n);
        return;
    }
    let ci = c[idx];
    if ci == 0 {
        lemma_search_complete(c, idx + 1, m, t, n);
        return;
    }
    lemma_search_bounds(c, idx + 1, m, t);
    if ci == 2 {
        lemma_search_bounds(c, idx + 1, m, t + 1);
    }
    let ms = lemma_first_meld(c, n, idx);
    let md = ms.last();
    assert(cover(ms, idx) == c[idx]);
    lemma_cover_remove(ms, ms.len() - 1, idx);
    lemma_cover_nonneg(ms.remove(ms.len() - 1), idx);
    assert(ms.remove(ms.len() - 1) =~= ms.drop_last());
    if ci >= 6 {
        lemma_csum_update(c, idx, (ci - 6) as u8);
        lemma_search_bounds(dec(c, idx, 6), idx, m + 2, t);
    }
    if run_start(idx) && c[idx + 1] > 0 && c[idx + 2] > 0 {
        let c1 = dec(c, idx, 1);
        let c2 = dec(c1, idx + 1, 1);
        lemma_csum_update(c, idx, (ci - 1) as u8);
        lemma_csum_update(c1, idx + 1, (c[idx + 1] - 1) as u8);
        lemma_csum_update(c2, idx + 2, (c[idx + 2] - 1) as u8);
        lemma_search_bounds(dec(c2, idx + 2, 1), idx, m + 1, t);
    }
    if ci >= 3 {
        lemma_csum_update(c, idx, (ci - 3) as u8);
        lemma_search_bounds(dec(c, idx, 3), idx, m + 1, t);
    }
    if ci == 1 {
        if pair_run_start(idx) && c[idx + 1] >= 1 {
            let c1 = dec(c, idx, 1);
            lemma_csum_update(c, idx, (ci - 1) as u8);
            lemma_csum_update(c1, idx + 1, (c[idx + 1] - 1) as u8);
            lemma_search_bounds(dec(c1, idx + 1, 1), idx + 1, m, t + 1);
        } else if pair_run_start(idx) && run_start(idx) && c[idx + 2] >= 1 {
            let c1 = dec(c, idx, 1);
            lemma_csum_update(c, idx, (ci - 1) as u8);
            lemma_csum_update(c1, idx + 2, (c[idx + 2] - 1) as u8);
            lemma_search_bounds(dec(c1, idx + 2, 1), idx + 1, m, t + 1);
        }
    }
    if md.0 {
        let c3 = dec(c, idx, 3);
        lemma_partition_pop(ms, c, c3);
        lemma_search_complete(c3, idx, m + 1, t, n - 1);
    } else {
        let c1 = dec(c, idx, 1);
        let c2 = dec(c1, idx + 1, 1);
        let cr = dec(c2, idx + 2, 1);
        lemma_cover_remove(ms, ms.len() - 1, idx + 1);
        lemma_cover_nonneg(ms.remove(ms.len() - 1), idx + 1);
        lemma_cover_remove(ms, ms.len() - 1, idx + 2);
        lemma_cover_nonneg(ms.remove(ms.len() - 1), idx + 2);
        assert(cover(ms, idx + 1) == c[idx + 1]);
        assert(cover(ms, idx + 2) == c[idx + 2]);
        lemma_partition_pop(ms, c, cr);
        lemma_search_complete(cr, idx, m + 1, t, n - 1);
    }
}

/// With `c` holding fourteen tiles, each head value is at least -1, and it
/// is -1 exactly when the rest splits into four melds.
proof fn lemma_head_value(c: Seq<u8>, h: int)
    requires
        c.len() == 34,
        csum(c) == 14,
        0 <= h < 34,
        c[h] >= 2,
    ensures
        head_value(c, h) >= -1,
        head_value(c, h) == -1 <==> decomposes(dec(c, h, 2), 4),
{
    let d = dec(c, h, 2);
    lemma_csum_update(c, h, (c[h] - 2) as u8);
    lemma_suffix_csum(d);
    lemma_search_bounds(d, 0, 0, 0);
    let r = search(d, 0, 0, 0);
    if decomposes(d, 4) {
        lemma_search_complete(d, 0, 0, 0, 4);
    }
    if r.0 == 4 && r.1 == 0 {
        lemma_search_sound(d, 0, 0, 0);
    }
}

proof fn lemma_best_head_bounds(c: Seq<u8>, n: int)
    requires
        c.len() == 34,
        csum(c) == 14,
        0 <= n <= 34,
    ensures
        best_head(c, n) >= -1,
        best_head(c, n) == -1 <==> exists|h: int| 0 <= h < n && c[h] >= 2 && #[trigger] decomposes(dec(c, h, 2), 4),
    decreases n,
{
    if n > 0 {
        lemma_best_head_bounds(c, n - 1);
        if c[n - 1] >= 2 {
            lemma_head_value(c, n - 1);
        }
        if exists|h: int| 0 <= h < n && c[h] >= 2 && #[trigger] decomposes(dec(c, h, 2), 4) {
            let h = choose|h: int| 0 <= h < n && c[h] >= 2 && #[trigger] decomposes(dec(c, h, 2), 4);
            if h < n - 1 {
                assert(exists|h2: int| 0 <= h2 < n - 1 && c[h2] >= 2 && #[trigger] decomposes(dec(c, h2, 2), 4));
            }
        }
    }
}

/// Without a pair taken, fourteen tiles are never complete.
proof fn lemma_no_head_value(c: Seq<u8>)
    requires
        c.len() == 34,
        csum(c) == 14,
    ensures
        form_value(search(c, 0, 0, 0)) >= 0,
{
    lemma_suffix_csum(c);
    lemma_search_bounds(c, 0, 0, 0);
}

proof fn lemma_yaochu_counts(c: Seq<u8>, n: int)
    requires
        0 <= n <= 13,
    ensures
        0 <= yaochu_held(c, n) <= n,
        0 <= yaochu_paired(c, n) <= n,
        yaochu_held(c, n) == n <==> forall|j: int| 0 <= j < n ==> c[#[trigger] yaochu_kinds()[j]] >= 1,
        yaochu_paired(c, n) > 0 <==> exists|j: int| 0 <= j < n && c[#[trigger] yaochu_kinds()[j]] >= 2,
    decreases n,
{
    if n > 0 {
        lemma_yaochu_counts(c, n - 1);
        if forall|j: int| 0 <= j < n ==> c[#[trigger] yaochu_kinds()[j]] >= 1 {
            assert(c[yaochu_kinds()[n - 1]] >= 1);
        }
        if exists|j: int| 0 <= j < n && c[#[trigger] yaochu_kinds()[j]] >= 2 {
            let j = choose|j: int| 0 <= j < n && c[#[trigger] yaochu_kinds()[j]] >= 2;
            if j < n - 1 {
                assert(exists|j2: int| 0 <= j2 < n - 1 && c[#[trigger] yaochu_kinds()[j2]] >= 2);
            }
        }
    }
}

proof fn lemma_pair_counts(c: Seq<u8>, n: int)
    requires
        0 <= n <= c.len(),
    ensures
        0 <= exact_pairs(c, n) <= paired_kinds(c, n),
        csum(c.take(n)) >= 3 * paired_kinds(c, n) - exact_pairs(c, n),
    decreases n,
{
    if n > 0 {
        lemma_pair_counts(c, n - 1);
        assert(c.take(n).drop_last() =~= c.take(n - 1));
    }
}

/// A fourteen-tile hand has shanten at least -1, and exactly -1 when it is a
/// winning shape (four melds and a pair, thirteen orphans, or seven pairs).
pub proof fn law_shanten_complete(hand: Seq<i32>)
    requires
        hand.len() == 14,
        hand_fits(hand),
    ensures
        shanten_value(counts_of(hand)) >= -1,
        shanten_value(counts_of(hand)) == -1 <==> agari_shape(counts_of(hand), 14),
{
    let c = counts_of(hand);
    lemma_count_kind_total(hand);
    lemma_best_head_bounds(c, 34);
    lemma_no_head_value(c);
    lemma_yaochu_counts(c, 13);
    lemma_pair_counts(c, 34);
    assert(c.take(34) =~= c);
    if standard_shape(c) {
        let h = choose|h: int| 0 <= h < 34 && c[h] >= 2 && #[trigger] decomposes(dec(c, h, 2), 4);
        assert(exists|h2: int| 0 <= h2 < 34 && c[h2] >= 2 && #[trigger] decomposes(dec(c, h2, 2), 4));
    }
}

/// A tile completes a thirteen-tile hand exactly when the count array with
/// that tile added has shanten below zero: the waits `is_tenpai` reports are
/// the tiles that make a winning shape.
pub proof fn law_waits_complete(hand: Seq<i32>, k: int)
    requires
        hand.len() == 13,
        hand_fits(hand),
        0 <= k < 34,
        counts_of(hand)[k] < 4,
    ensures
        counts_of(hand.push(k as i32)) == counts_of(hand).update(k, (counts_of(hand)[k] + 1) as u8),
        shanten_value(counts_of(hand).update(k, (counts_of(hand)[k] + 1) as u8)) < 0
            <==> agari_shape(counts_of(hand.push(k as i32)), 14),
{
    let h2 = hand.push(k as i32);
    assert(h2.drop_last() =~= hand);
    assert forall|j: int| 0 <= j < 34 implies #[trigger] count_kind(h2, j) <= 255 by {
        assert(count_kind(hand, j) <= 255);
        assert(count_kind(hand, k) < 4);
    }
    assert(counts_of(h2) =~= counts_of(hand).update(k, (counts_of(hand)[k] + 1) as u8));
    law_shanten_complete(h2);
}

/// The kinds among `0..n` that complete `hand`: each kind held fewer than
/// four times that forms a winning shape once added to the hand, repeated
/// once per copy still unseen, as its representative id.
pub open spec fn winning_waits(hand: Seq<i32>, n: int) -> Seq<i32>
    decreases n,
{
    if n <= 0 {
        Seq::empty()
    } else {
        let k = n - 1;
        let c = counts_of(hand);
        if c[k] < 4 && agari_shape(counts_of(hand.push(k as i32)), hand.len() + 1int) {
            winning_waits(hand, k) + Seq::new((4 - c[k]) as nat, |_j: int| k as i32)
        } else {
            winning_waits(hand, k)
        }
    }
}

proof fn lemma_waits_win(hand: Seq<i32>, n: int)
    requires
        hand.len() == 13,
        hand_fits(hand),
        0 <= n <= 34,
    ensures
        waits(counts_of(hand), n) == winning_waits(hand, n),
    decreases n,
{
    if n > 0 {
        lemma_waits_win(hand, n - 1);
        if counts_of(hand)[n - 1] < 4 {
            law_waits_complete(hand, n - 1);
        }
    }
}

/// The waits of a thirteen-tile hand are exactly the kinds that, added to
/// the hand, make a winning shape, each listed once per unseen copy in
/// ascending order; so `is_tenpai` answers `None` exactly when no tile
/// completes the hand.
pub proof fn law_waits_win(hand: Seq<i32>)
    requires
        hand.len() == 13,
        hand_fits(hand),
    ensures
        waits(counts_of(hand), 34) == winning_waits(hand, 34),
{
    lemma_waits_win(hand, 34);
}

/// Everything the hand evaluation computes depends only on the kinds the
/// tiles count as, with multiplicity: reordering a hand, or exchanging a red
/// five for its plain five, changes neither its shanten, nor whether it is a
/// winning shape, nor its waits.
pub proof fn law_same_kinds(h1: Seq<i32>, h2: Seq<i32>)
    requires
        kinds_of(h1).to_multiset() == kinds_of(h2).to_multiset(),
    ensures
        h1.len() == h2.len(),
        counts_of(h1) == counts_of(h2),
        hand_fits(h1) == hand_fits(h2),
        shanten_value(counts_of(h1)) == shanten_value(counts_of(h2)),
        agari_shape(counts_of(h1), h1.len() as int) == agari_shape(counts_of(h2), h2.len() as int),
        waits(counts_of(h1), 34) == waits(counts_of(h2), 34),
{
    assert forall|k: int| #[trigger] count_kind(h1, k) == count_kind(h2, k) by {
        lemma_count_kind_multiset(h1, k);
        lemma_count_kind_multiset(h2, k);
    }
    lemma_count_kind_multiset(h1, 0);
    lemma_count_kind_multiset(h2, 0);
    assert(hand_fits(h1) == hand_fits(h2)) by {
        if hand_fits(h1) {
            assert forall|k: int| 0 <= k < 34 implies #[trigger] count_kind(h2, k) <= 255 by {
                assert(count_kind(h1, k) <= 255);
            }
        }
        if hand_fits(h2) {
            assert forall|k: int| 0 <= k < 34 implies #[trigger] count_kind(h1, k) <= 255 by {
                assert(count_kind(h2, k) <= 255);
            }
        }
    }
    vstd::seq_lib::to_multiset_len(kinds_of(h1));
    vstd::seq_lib::to_multiset_len(kinds_of(h2));
    assert(counts_of(h1) =~= counts_of(h2));
}

/// Kind indices and tile ids convert into each other: every id counts as a
/// kind in `0..34`, the first id of a kind counts as that kind, and a plain
/// id `0..=33` is the first id of its own kind (a red five maps to the first
/// id of its plain five's kind).
pub proof fn law_kind_id_round_trip(idx: usize, id: i32)
    ensures
        tile_to_index34(id) < 34,
        tile_to_index34(index34_to_id(tile_to_index34(id))) == tile_to_index34(id),
        idx < 34 ==> index34_to_id(idx) == idx as i32 && tile_to_index34(index34_to_id(idx)) == idx,
        0 <= id <= 33 ==> index34_to_id(tile_to_index34(id)) == id,
{
}

/// The limit hands are fixed multiples of a mangan, whatever the fu: from
/// five han the base points do not depend on the fu; a mangan (5 han) is
/// 2000, a haneman (6-7 han) one and a half mangan, a baiman (8-10 han)
/// two, a sanbaiman (11-12 han) three and a yakuman (13 han and more) four;
/// below five han the base points never exceed a mangan.
pub proof fn law_limit_hands(fu: int, fu2: int, han: int)
    ensures
        han >= 5 ==> base_points(fu, han) == base_points(fu2, han),
        base_points(fu, 5) == 2000,
        han == 6 || han == 7 ==> 2 * base_points(fu, han) == 3 * base_points(fu2, 5),
        8 <= han <= 10 ==> base_points(fu, han) == 2 * base_points(fu2, 5),
        han == 11 || han == 12 ==> base_points(fu, han) == 3 * base_points(fu2, 5),
        han >= 13 ==> base_points(fu, han) == 4 * base_points(fu2, 5),
        han < 5 ==> base_points(fu, han) <= base_points(fu2, 5),
{
}

// ── a tile short of complete ──────────────────────────────────

/// The melds `ms` lie within the counts `c`, at the kinds from `idx` on.
pub open spec fn melds_within(ms: Seq<(bool, int)>, c: Seq<u8>, idx: int) -> bool {
    &&& forall|j: int| 0 <= j < ms.len() ==> meld_ok(#[trigger] ms[j])
    &&& forall|i: int| 0 <= i < 34 ==> #[trigger] cover(ms, i) <= room(c, idx, i)
}

proof fn lemma_cover_ge(ms: Seq<(bool, int)>, j: int, i: int)
    requires
        0 <= j < ms.len(),
    ensures
        cover(ms, i) >= meld_cover(ms[j], i),
{
    lemma_cover_remove(ms, j, i);
    lemma_cover_nonneg(ms.remove(j), i);
}

/// A meld holding a tile of kind `idx`, among melds at the kinds from `idx`
/// on, starts at `idx`.
proof fn lemma_meld_starts(ms: Seq<(bool, int)>, c: Seq<u8>, idx: int, j: int)
    requires
        melds_within(ms, c, idx),
        0 <= idx < 34,
        0 <= j < ms.len(),
        meld_cover(ms[j], idx) > 0,
    ensures
        ms[j].1 == idx,
{
    let md = ms[j];
    assert(meld_ok(md));
    if md.1 < idx {
        lemma_cover_ge(ms, j, md.1);
        assert(cover(ms, md.1) <= room(c, idx, md.1));
    }
}

/// No meld lies at the kinds from 34 on.
proof fn lemma_no_melds(ms: Seq<(bool, int)>, c: Seq<u8>)
    requires
        melds_within(ms, c, 34),
    ensures
        ms.len() == 0,
{
    if ms.len() > 0 {
        let md = ms[0];
        assert(meld_ok(md));
        lemma_cover_ge(ms, 0, md.1);
        assert(cover(ms, md.1) <= room(c, 34, md.1));
    }
}

/// Dropping one meld keeps the others within the counts that remain.
proof fn lemma_within_remove(ms: Seq<(bool, int)>, j: int, c2: Seq<u8>, idx2: int)
    requires
        0 <= j < ms.len(),
        forall|k: int| 0 <= k < ms.len() ==> meld_ok(#[trigger] ms[k]),
        forall|i: int| 0 <= i < 34 ==> cover(ms, i) - meld_cover(ms[j], i) <= #[trigger] room(c2, idx2, i),
    ensures
        melds_within(ms.remove(j), c2, idx2),
{
    let r = ms.remove(j);
    assert forall|k: int| 0 <= k < r.len() implies meld_ok(#[trigger] r[k]) by {
        if k < j {
            assert(r[k] == ms[k]);
        } else {
            assert(r[k] == ms[k + 1]);
        }
    }
    assert forall|i: int| 0 <= i < 34 implies #[trigger] cover(r, i) <= room(c2, idx2, i) by {
        lemma_cover_remove(ms, j, i);
    }
}

proof fn lemma_upd_ranks(a: (int, int), b: (int, int))
    ensures
        ranks_ge(upd(a, b), a),
        ranks_ge(upd(a, b), b),
{
}

/// The search does at least as well as any set of melds within the counts:
/// the tiles it leaves over never cost it a meld.
proof fn lemma_search_finds(c: Seq<u8>, idx: int, m: int, t: int, ms: Seq<(bool, int)>)
    requires
        c.len() == 34,
        0 <= idx <= 34,
        0 <= m,
        0 <= t,
        melds_within(ms, c, idx),
    ensures
        ranks_ge(search(c, idx, m, t), (m + ms.len(), t)),
    decreases csum(c), 34 - idx,
{
    if idx >= 34 {
        lemma_no_melds(ms, c);
        return;
    }
    let ci = c[idx];
    let r = search(c, idx, m, t);
    let two = if ci >= 6 { search(dec(c, idx, 6), idx, m + 2, t) } else { none_pair() };
    let one = if ci >= 3 { search(dec(c, idx, 3), idx, m + 1, t) } else { none_pair() };
    let cr = dec(dec(dec(c, idx, 1), idx + 1, 1), idx + 2, 1);
    let run = if run_start(idx) && c[idx + 1] > 0 && c[idx + 2] > 0 { search(cr, idx, m + 1, t) } else { none_pair() };
    let rest = if ci == 2 {
        search(c, idx + 1, m, t + 1)
    } else if ci == 1 {
        upd(single_partial(c, idx, m, t), search(c, idx + 1, m, t))
    } else {
        search(c, idx + 1, m, t)
    };
    if ci > 0 {
        assert(r == upd(upd(upd(upd(none_pair(), two), one), run), rest));
        lemma_upd_ranks(upd(upd(upd(none_pair(), two), one), run), rest);
        lemma_upd_ranks(upd(upd(none_pair(), two), one), run);
        lemma_upd_ranks(upd(none_pair(), two), one);
        if ci == 1 {
            lemma_upd_ranks(single_partial(c, idx, m, t), search(c, idx + 1, m, t));
        }
    }
    if cover(ms, idx) > 0 {
        let j = lemma_cover_witness(ms, idx);
        let md = ms[j];
        lemma_meld_starts(ms, c, idx, j);
        lemma_cover_ge(ms, j, idx);
        assert(meld_ok(md));
        if md.0 {
            let c3 = dec(c, idx, 3);
            lemma_csum_update(c, idx, (ci - 3) as u8);
            assert forall|i: int| 0 <= i < 34 implies cover(ms, i) - meld_cover(ms[j], i) <= #[trigger] room(c3, idx, i) by {
                assert(cover(ms, i) <= room(c, idx, i));
            }
            lemma_within_remove(ms, j, c3, idx);
            lemma_search_finds(c3, idx, m + 1, t, ms.remove(j));
        } else {
            lemma_cover_ge(ms, j, idx + 1);
            lemma_cover_ge(ms, j, idx + 2);
            assert(cover(ms, idx + 1) <= room(c, idx, idx + 1));
            assert(cover(ms, idx + 2) <= room(c, idx, idx + 2));
            let c1 = dec(c, idx, 1);
            let c2 = dec(c1, idx + 1, 1);
            lemma_csum_update(c, idx, (ci - 1) as u8);
            lemma_csum_update(c1, idx + 1, (c[idx + 1] - 1) as u8);
            lemma_csum_update(c2, idx + 2, (c[idx + 2] - 1) as u8);
            assert forall|i: int| 0 <= i < 34 implies cover(ms, i) - meld_cover(ms[j], i) <= #[trigger] room(cr, idx, i) by {
                assert(cover(ms, i) <= room(c, idx, i));
            }
            lemma_within_remove(ms, j, cr, idx);
            lemma_search_finds(cr, idx, m + 1, t, ms.remove(j));
        }
    } else {
        assert forall|i: int| 0 <= i < 34 implies #[trigger] cover(ms, i) <= room(c, idx + 1, i) by {
            assert(cover(ms, i) <= room(c, idx, i));
        }
        if ci == 2 {
            lemma_search_finds(c, idx + 1, m, t + 1, ms);
        } else {
            lemma_search_finds(c, idx + 1, m, t, ms);
        }
    }
}

/// The melds `ms` and one partial meld `pp` lie, disjoint, within the counts
/// `c` at the kinds from `idx` on.
pub open spec fn sets_within(ms: Seq<(bool, int)>, pp: (int, int), c: Seq<u8>, idx: int) -> bool {
    &&& forall|j: int| 0 <= j < ms.len() ==> meld_ok(#[trigger] ms[j])
    &&& partial_ok(pp)
    &&& forall|i: int| 0 <= i < 34 ==> #[trigger] cover(ms, i) + partial_cover(pp, i) <= room(c, idx, i)
}

/// The search does at least as well as any set of melds and one partial
/// meld within the counts.
proof fn lemma_search_finds_partial(c: Seq<u8>, idx: int, m: int, t: int, ms: Seq<(bool, int)>, pp: (int, int))
    requires
        c.len() == 34,
        0 <= idx <= 34,
        0 <= m,
        0 <= t,
        sets_within(ms, pp, c, idx),
    ensures
        ranks_ge(search(c, idx, m, t), (m + ms.len(), t + 1)),
    decreases csum(c), 34 - idx,
{
    assert(0 <= pp.0 < 34 && partial_cover(pp, pp.0) > 0);
    if idx >= 34 {
        lemma_cover_nonneg(ms, pp.0);
        assert(cover(ms, pp.0) + partial_cover(pp, pp.0) <= room(c, idx, pp.0));
        return;
    }
    let ci = c[idx];
    let r = search(c, idx, m, t);
    let two = if ci >= 6 { search(dec(c, idx, 6), idx, m + 2, t) } else { none_pair() };
    let one = if ci >= 3 { search(dec(c, idx, 3), idx, m + 1, t) } else { none_pair() };
    let cr = dec(dec(dec(c, idx, 1), idx + 1, 1), idx + 2, 1);
    let run = if run_start(idx) && c[idx + 1] > 0 && c[idx + 2] > 0 { search(cr, idx, m + 1, t) } else { none_pair() };
    let rest = if ci == 2 {
        search(c, idx + 1, m, t + 1)
    } else if ci == 1 {
        upd(single_partial(c, idx, m, t), search(c, idx + 1, m, t))
    } else {
        search(c, idx + 1, m, t)
    };
    if ci > 0 {
        assert(r == upd(upd(upd(upd(none_pair(), two), one), run), rest));
        lemma_upd_ranks(upd(upd(upd(none_pair(), two), one), run), rest);
        lemma_upd_ranks(upd(upd(none_pair(), two), one), run);
        lemma_upd_ranks(upd(none_pair(), two), one);
        if ci == 1 {
            lemma_upd_ranks(single_partial(c, idx, m, t), search(c, idx + 1, m, t));
        }
    }
    assert forall|i: int| 0 <= i < 34 implies #[trigger] cover(ms, i) <= room(c, idx, i) by {
        assert(cover(ms, i) + partial_cover(pp, i) <= room(c, idx, i));
    }
    lemma_cover_nonneg(ms, idx);
    lemma_cover_nonneg(ms, idx + 1);
    lemma_cover_nonneg(ms, idx + 2);
    lemma_cover_nonneg(ms, pp.0);
    assert(cover(ms, pp.0) + partial_cover(pp, pp.0) <= room(c, idx, pp.0));
    assert(pp.0 >= idx);
    if cover(ms, idx) > 0 {
        // a meld starts here: take it
        let j = lemma_cover_witness(ms, idx);
        let md = ms[j];
        lemma_meld_starts(ms, c, idx, j);
        lemma_cover_ge(ms, j, idx);
        assert(meld_ok(md));
        let rm = ms.remove(j);
        assert forall|k: int| 0 <= k < rm.len() implies meld_ok(#[trigger] rm[k]) by {
            if k < j {
                assert(rm[k] == ms[k]);
            } else {
                assert(rm[k] == ms[k + 1]);
            }
        }
        if md.0 {
            let c3 = dec(c, idx, 3);
            lemma_csum_update(c, idx, (ci - 3) as u8);
            assert forall|i: int| 0 <= i < 34 implies #[trigger] cover(rm, i) + partial_cover(pp, i) <= room(c3, idx, i) by {
                lemma_cover_remove(ms, j, i);
                assert(cover(ms, i) + partial_cover(pp, i) <= room(c, idx, i));
            }
            lemma_search_finds_partial(c3, idx, m + 1, t, rm, pp);
        } else {
            lemma_cover_ge(ms, j, idx + 1);
            lemma_cover_ge(ms, j, idx + 2);
            assert(cover(ms, idx + 1) <= room(c, idx, idx + 1));
            assert(cover(ms, idx + 2) <= room(c, idx, idx + 2));
            let c1 = dec(c, idx, 1);
            let c2 = dec(c1, idx + 1, 1);
            lemma_csum_update(c, idx, (ci - 1) as u8);
            lemma_csum_update(c1, idx + 1, (c[idx + 1] - 1) as u8);
            lemma_csum_update(c2, idx + 2, (c[idx + 2] - 1) as u8);
            assert forall|i: int| 0 <= i < 34 implies #[trigger] cover(rm, i) + partial_cover(pp, i) <= room(cr, idx, i) by {
                lemma_cover_remove(ms, j, i);
                assert(cover(ms, i) + partial_cover(pp, i) <= room(c, idx, i));
            }
            lemma_search_finds_partial(cr, idx, m + 1, t, rm, pp);
        }
    } else if pp.0 == idx {
        // the partial meld starts here and no meld does
        assert(cover(ms, idx) + partial_cover(pp, idx) <= room(c, idx, idx));
        assert forall|i: int| 0 <= i < 34 && i != idx && i != pp.0 + pp.1 implies #[trigger] cover(ms, i) <= room(c, idx + 1, i) by {
            assert(cover(ms, i) + partial_cover(pp, i) <= room(c, idx, i));
        }
        if ci >= 3 {
            let c3 = dec(c, idx, 3);
            lemma_csum_update(c, idx, (ci - 3) as u8);
            assert forall|i: int| 0 <= i < 34 implies #[trigger] cover(ms, i) <= room(c3, idx, i) by {
                assert(cover(ms, i) + partial_cover(pp, i) <= room(c, idx, i));
            }
            lemma_search_finds(c3, idx, m + 1, t, ms);
        } else if ci == 2 {
            assert forall|i: int| 0 <= i < 34 implies #[trigger] cover(ms, i) <= room(c, idx + 1, i) by {
                assert(cover(ms, i) + partial_cover(pp, i) <= room(c, idx, i));
            }
            lemma_search_finds(c, idx + 1, m, t + 1, ms);
        } else if pp.1 == 1 {
            // a single tile with its neighbour: the search takes that partial run
            let c1 = dec(c, idx, 1);
            let c2 = dec(c1, idx + 1, 1);
            assert(cover(ms, idx + 1) + partial_cover(pp, idx + 1) <= room(c, idx, idx + 1));
            lemma_csum_update(c, idx, (ci - 1) as u8);
            lemma_csum_update(c1, idx + 1, (c[idx + 1] - 1) as u8);
            assert forall|i: int| 0 <= i < 34 implies #[trigger] cover(ms, i) <= room(c2, idx + 1, i) by {
                assert(cover(ms, i) + partial_cover(pp, i) <= room(c, idx, i));
            }
            assert(single_partial(c, idx, m, t) == search(c2, idx + 1, m, t + 1));
            lemma_search_finds(c2, idx + 1, m, t + 1, ms);
        } else if c[idx + 1] == 0 {
            // a single tile with the one after next, nothing between: the gap
            let c1 = dec(c, idx, 1);
            let c2 = dec(c1, idx + 2, 1);
            assert(pp.1 == 2);
            assert(cover(ms, idx + 2) + partial_cover(pp, idx + 2) <= room(c, idx, idx + 2));
            lemma_csum_update(c, idx, (ci - 1) as u8);
            lemma_csum_update(c1, idx + 2, (c[idx + 2] - 1) as u8);
            assert forall|i: int| 0 <= i < 34 implies #[trigger] cover(ms, i) <= room(c2, idx + 1, i) by {
                assert(cover(ms, i) + partial_cover(pp, i) <= room(c, idx, idx) + room(c, idx, i));
                assert(cover(ms, i) + partial_cover(pp, i) <= room(c, idx, i));
            }
            assert(single_partial(c, idx, m, t) == search(c2, idx + 1, m, t + 1));
            lemma_search_finds(c2, idx + 1, m, t + 1, ms);
        } else {
            // a gap whose middle kind is held: take the run through it
            assert(pp.1 == 2);
            assert(cover(ms, idx + 2) + partial_cover(pp, idx + 2) <= room(c, idx, idx + 2));
            let c1 = dec(c, idx, 1);
            let c2 = dec(c1, idx + 1, 1);
            lemma_csum_update(c, idx, (ci - 1) as u8);
            lemma_csum_update(c1, idx + 1, (c[idx + 1] - 1) as u8);
            lemma_csum_update(c2, idx + 2, (c[idx + 2] - 1) as u8);
            lemma_cover_nonneg(ms, idx + 1);
            if cover(ms, idx + 1) < c[idx + 1] {
                assert forall|i: int| 0 <= i < 34 implies #[trigger] cover(ms, i) <= room(cr, idx, i) by {
                    assert(cover(ms, i) + partial_cover(pp, i) <= room(c, idx, i));
                }
                lemma_search_finds(cr, idx, m + 1, t, ms);
            } else {
                // every tile of the middle kind is in a meld starting there:
                // the run takes one, and that meld becomes a partial meld
                let j = lemma_cover_witness(ms, idx + 1);
                let md = ms[j];
                assert(meld_ok(md));
                lemma_cover_ge(ms, j, idx + 1);
                if md.1 < idx + 1 {
                    lemma_cover_ge(ms, j, md.1);
                    lemma_cover_ge(ms, j, idx);
                }
                assert(md.1 == idx + 1);
                let pp2 = if md.0 { (idx + 1, 0int) } else { (idx + 2, 1int) };
                let rm = ms.remove(j);
                assert forall|k: int| 0 <= k < rm.len() implies meld_ok(#[trigger] rm[k]) by {
                    if k < j {
                        assert(rm[k] == ms[k]);
                    } else {
                        assert(rm[k] == ms[k + 1]);
                    }
                }
                assert forall|i: int| 0 <= i < 34 implies #[trigger] cover(rm, i) + partial_cover(pp2, i) <= room(cr, idx, i) by {
                    lemma_cover_remove(ms, j, i);
                    assert(cover(ms, i) + partial_cover(pp, i) <= room(c, idx, i));
                }
                lemma_search_finds_partial(cr, idx, m + 1, t, rm, pp2);
            }
        }
    } else {
        // nothing starts here: move on
        assert forall|i: int| 0 <= i < 34 implies #[trigger] cover(ms, i) + partial_cover(pp, i) <= room(c, idx + 1, i) by {
            assert(cover(ms, i) + partial_cover(pp, i) <= room(c, idx, i));
        }
        if ci == 2 {
            lemma_search_finds_partial(c, idx + 1, m, t + 1, ms, pp);
        } else {
            lemma_search_finds_partial(c, idx + 1, m, t, ms, pp);
        }
    }
}

proof fn lemma_best_head_le(c: Seq<u8>, n: int, h: int)
    requires
        0 <= h < n <= 34,
        c.len() == 34,
        c[h] >= 2,
    ensures
        best_head(c, n) <= head_value(c, h),
    decreases n,
{
    if h < n - 1 {
        lemma_best_head_le(c, n - 1, h);
    }
}

proof fn lemma_paired_drop(c: Seq<u8>, c2: Seq<u8>, k: int, n: int)
    requires
        c.len() == 34,
        c2.len() == 34,
        0 <= k < 34,
        0 <= n <= 34,
        forall|i: int| 0 <= i < 34 && i != k ==> c[i] == c2[i],
        c2[k] == c[k] + 1,
    ensures
        paired_kinds(c, n) >= exact_pairs(c2, n) - (if k < n { 1int } else { 0int }),
    decreases n,
{
    if n > 0 {
        lemma_paired_drop(c, c2, k, n - 1);
    }
}

proof fn lemma_yaochu_distinct(j1: int, j2: int)
    requires
        0 <= j1 < 13,
        0 <= j2 < 13,
        j1 != j2,
    ensures
        yaochu_kinds()[j1] != yaochu_kinds()[j2],
{
}

proof fn lemma_yaochu_drop(c: Seq<u8>, c2: Seq<u8>, k: int, n: int)
    requires
        c.len() == 34,
        c2.len() == 34,
        0 <= k < 34,
        0 <= n <= 13,
        forall|i: int| 0 <= i < 34 && i != k ==> c[i] == c2[i],
        c2[k] == c[k] + 1,
    ensures
        (forall|j: int| 0 <= j < n ==> yaochu_kinds()[j] != k) ==> yaochu_held(c, n) == yaochu_held(c2, n)
            && yaochu_paired(c, n) == yaochu_paired(c2, n),
        yaochu_held(c, n) >= yaochu_held(c2, n) - 1,
        c2[k] != 1 ==> yaochu_held(c, n) >= yaochu_held(c2, n),
        yaochu_paired(c, n) >= yaochu_paired(c2, n) - 1,
        c2[k] != 2 ==> yaochu_paired(c, n) >= yaochu_paired(c2, n),
    decreases n,
{
    if n > 0 {
        lemma_yaochu_drop(c, c2, k, n - 1);
        let y = yaochu_kinds()[n - 1];
        assert(0 <= y < 34);
        if y == k {
            assert forall|j: int| 0 <= j < n - 1 implies yaochu_kinds()[j] != k by {
                lemma_yaochu_distinct(j, n - 1);
            }
        }
    }
}

/// A thirteen-tile hand that one more tile of kind `k` makes a winning shape
/// has shanten at most zero.
proof fn lemma_one_short(hand: Seq<i32>, k: int)
    requires
        hand.len() == 13,
        hand_fits(hand),
        0 <= k < 34,
        counts_of(hand)[k] < 4,
        agari_shape(counts_of(hand.push(k as i32)), 14),
    ensures
        shanten_value(counts_of(hand)) <= 0,
{
    let c = counts_of(hand);
    law_waits_complete(hand, k);
    let c2 = counts_of(hand.push(k as i32));
    assert(c2 == c.update(k, (c[k] + 1) as u8));
    lemma_count_kind_total(hand);
    lemma_suffix_csum(c);
    if exact_pairs(c2, 34) == 7 {
        lemma_paired_drop(c, c2, k, 34);
        assert(chiitoi_value(c) <= 0);
    } else if kokushi_shape(c2) {
        lemma_yaochu_counts(c2, 13);
        lemma_yaochu_counts(c, 13);
        lemma_yaochu_drop(c, c2, k, 13);
        assert(kokushi_value(c) <= 0);
    } else {
        assert(standard_shape(c2));
        let h = choose|h: int| 0 <= h < 34 && c2[h] >= 2 && #[trigger] decomposes(dec(c2, h, 2), 4);
        let d2 = dec(c2, h, 2);
        let ms = choose|ms: Seq<(bool, int)>| ms.len() == 4 && #[trigger] partitions(ms, d2);
        if k == h {
            // the added tile completes the pair: four melds lie in the hand
            assert forall|i: int| 0 <= i < 34 implies #[trigger] cover(ms, i) <= room(c, 0, i) by {
                assert(cover(ms, i) == d2[i]);
            }
            lemma_search_finds(c, 0, 0, 0, ms);
            lemma_search_bounds(c, 0, 0, 0);
            assert(form_value(search(c, 0, 0, 0)) <= 0);
        } else {
            // the added tile completes a meld: three melds, a partial meld
            // and the pair lie in the hand
            let d = dec(c, h, 2);
            assert(cover(ms, k) == d2[k]);
            let j = lemma_cover_witness(ms, k);
            let md = ms[j];
            assert(meld_ok(md));
            let pp = if md.0 {
                (k, 0int)
            } else if k == md.1 {
                (k + 1, 1int)
            } else if k == md.1 + 1 {
                (md.1, 2int)
            } else {
                (md.1, 1int)
            };
            let rm = ms.remove(j);
            assert forall|q: int| 0 <= q < rm.len() implies meld_ok(#[trigger] rm[q]) by {
                if q < j {
                    assert(rm[q] == ms[q]);
                } else {
                    assert(rm[q] == ms[q + 1]);
                }
            }
            assert forall|i: int| 0 <= i < 34 implies #[trigger] cover(rm, i) + partial_cover(pp, i) <= room(d, 0, i) by {
                lemma_cover_remove(ms, j, i);
                assert(cover(ms, i) == d2[i]);
            }
            lemma_search_finds_partial(d, 0, 0, 0, rm, pp);
            lemma_csum_update(c, h, (c[h] - 2) as u8);
            lemma_suffix_csum(d);
            lemma_search_bounds(d, 0, 0, 0);
            assert(head_value(c, h) <= 0);
            lemma_best_head_le(c, 34, h);
        }
    }
}

proof fn lemma_winning_waits_kind(hand: Seq<i32>, n: int)
    requires
        0 <= n <= 34,
        winning_waits(hand, n).len() > 0,
    ensures
        exists|k: int| 0 <= k < n && counts_of(hand)[k] < 4 && #[trigger] agari_shape(counts_of(hand.push(k as i32)), hand.len() + 1int),
    decreases n,
{
    let k = n - 1;
    let c = counts_of(hand);
    if !(c[k] < 4 && agari_shape(counts_of(hand.push(k as i32)), hand.len() + 1int)) {
        lemma_winning_waits_kind(hand, n - 1);
        let k2 = choose|k2: int| 0 <= k2 < n - 1 && counts_of(hand)[k2] < 4 && #[trigger] agari_shape(counts_of(hand.push(k2 as i32)), hand.len() + 1int);
        assert(0 <= k2 < n);
    }
}

/// A thirteen-tile hand that some tile completes is tenpai: when the waits
/// are not empty the shanten is at most zero; more precisely, whenever one
/// more tile of some kind (of which fewer than four are held) makes a
/// winning shape, the shanten of the thirteen tiles is at most zero.
pub proof fn law_tenpai_shanten(hand: Seq<i32>, k: int)
    requires
        hand.len() == 13,
        hand_fits(hand),
    ensures
        0 <= k < 34 && counts_of(hand)[k] < 4 && agari_shape(counts_of(hand.push(k as i32)), 14)
            ==> shanten_value(counts_of(hand)) <= 0,
        waits(counts_of(hand), 34).len() > 0 ==> shanten_value(counts_of(hand)) <= 0,
{
    if 0 <= k < 34 && counts_of(hand)[k] < 4 && agari_shape(counts_of(hand.push(k as i32)), 14) {
        lemma_one_short(hand, k);
    }
    if waits(counts_of(hand), 34).len() > 0 {
        law_waits_win(hand);
        lemma_winning_waits_kind(hand, 34);
        let k2 = choose|k2: int| 0 <= k2 < 34 && counts_of(hand)[k2] < 4 && #[trigger] agari_shape(counts_of(hand.push(k2 as i32)), hand.len() + 1int);
        lemma_one_short(hand, k2);
    }
}

} // verus!
