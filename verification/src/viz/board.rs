//! Board decisions of the viewer that do not depend on pixel geometry:
//! which river tiles were called away, and in what order the tiles of a
//! called meld are laid out.

use vstd::prelude::*;

use crate::mahjong::tiles::{sort_hand, sort_hand_with_draw};
use crate::parser::{remove_first, sorted_tiles};
use crate::text::eq_lit;
use crate::snapshot::{MeldEntry, MeldView, Snapshot, SnapView, meld_views};

verus! {

// ── called tiles ──────────────────────────────────────────────

/// A meld that took a tile from another seat's river.
pub open spec fn called_from(m: MeldView) -> bool {
    m.from_player >= 0 && m.called_tile > 0
}

/// (source seat, called tile) of the melds that took a tile, in order.
pub open spec fn pairs_of(ms: Seq<MeldView>) -> Seq<(usize, i32)>
    decreases ms.len(),
{
    if ms.len() == 0 {
        Seq::empty()
    } else {
        let rest = pairs_of(ms.drop_last());
        if called_from(ms.last()) {
            rest.push((ms.last().from_player as usize, ms.last().called_tile))
        } else {
            rest
        }
    }
}

/// The tiles called away from the rivers, over the melds of all four seats.
pub open spec fn stolen_pairs(s: SnapView) -> Seq<(usize, i32)> {
    pairs_of(s.melds[0]) + pairs_of(s.melds[1]) + pairs_of(s.melds[2]) + pairs_of(s.melds[3])
}

/// Whether the pair is in the list.
fn has_pair(v: &Vec<(usize, i32)>, x: (usize, i32)) -> (r: bool)
    ensures
        r == v@.contains(x),
{
    let mut i: usize = 0;
    while i < v.len()
        invariant
            0 <= i <= v.len(),
            forall|k: int| 0 <= k < i ==> #[trigger] v@[k] != x,
        decreases v.len() - i,
    {
        if v[i].0 == x.0 && v[i].1 == x.1 {
            assert(v@[i as int] == x);
            return true;
        }
        i = i + 1;
    }
    false
}

/// Adds the pairs of one seat's melds that are not yet listed.
fn add_pairs(out: &mut Vec<(usize, i32)>, ms: &Vec<MeldEntry>)
    requires
        old(out)@.no_duplicates(),
    ensures
        final(out)@.no_duplicates(),
        forall|x: (usize, i32)| #[trigger] final(out)@.contains(x)
            <==> (old(out)@.contains(x) || pairs_of(meld_views(ms@)).contains(x)),
{
    let ghost o0 = out@;
    let ghost mv = meld_views(ms@);
    let mut k: usize = 0;
    assert(mv.take(0) =~= Seq::<MeldView>::empty());
    while k < ms.len()
        invariant
            0 <= k <= ms.len(),
            mv == meld_views(ms@),
            out@.no_duplicates(),
            forall|x: (usize, i32)| #[trigger] out@.contains(x) <==> (o0.contains(x) || pairs_of(mv.take(k as int)).contains(x)),
        decreases ms.len() - k,
    {
        let m = &ms[k];
        assert(mv.take(k + 1).drop_last() =~= mv.take(k as int));
        assert(mv.take(k + 1).last() == m@);
        let ghost before = out@;
        let ghost pk = pairs_of(mv.take(k as int));
        if m.from_player >= 0 && m.called_tile > 0 {
            let x = (m.from_player as usize, m.called_tile);
            if !has_pair(out, x) {
                out.push(x);
            }
            proof {
                assert(pairs_of(mv.take(k + 1)) == pk.push(x));
                assert forall|y: (usize, i32)| #[trigger] out@.contains(y) <==> (o0.contains(y) || pk.push(x).contains(y)) by {
                    if out@.contains(y) && !before.contains(y) {
                        assert(y == x);
                        assert(pk.push(x)[pk.len() as int] == y);
                    }
                    if pk.push(x).contains(y) {
                        let i = choose|i: int| 0 <= i < pk.push(x).len() && pk.push(x)[i] == y;
                        if i < pk.len() {
                            assert(pk[i] == y);
                        } else {
                            assert(y == x);
                            if !before.contains(x) {
                                assert(out@[before.len() as int] == x);
                            }
                        }
                    }
                    if before.contains(y) {
                        let i = choose|i: int| 0 <= i < before.len() && before[i] == y;
                        assert(out@[i] == y);
                    }
                    if pk.contains(y) {
                        let i = choose|i: int| 0 <= i < pk.len() && pk[i] == y;
                        assert(pk.push(x)[i] == y);
                    }
                }
            }
        } else {
            assert(pairs_of(mv.take(k + 1)) == pk);
        }
        k = k + 1;
    }
    assert(mv.take(ms.len() as int) =~= mv);
}

/// The (source seat, tile id) of every tile called away from a river, each
/// once.
pub fn collect_stolen(snap: &Snapshot) -> (r: Vec<(usize, i32)>)
    ensures
        r@.no_duplicates(),
        forall|x: (usize, i32)| #[trigger] r@.contains(x) <==> stolen_pairs(snap@).contains(x),
{
    let mut out: Vec<(usize, i32)> = Vec::new();
    add_pairs(&mut out, snap.melds_for(0));
    add_pairs(&mut out, snap.melds_for(1));
    add_pairs(&mut out, snap.melds_for(2));
    add_pairs(&mut out, snap.melds_for(3));
    proof {
        let s = snap@;
        assert forall|x: (usize, i32)| #[trigger] out@.contains(x) <==> stolen_pairs(s).contains(x) by {
            vstd::seq_lib::lemma_seq_concat_contains_all_elements(pairs_of(s.melds[0]), pairs_of(s.melds[1]), x);
            vstd::seq_lib::lemma_seq_concat_contains_all_elements(pairs_of(s.melds[0]) + pairs_of(s.melds[1]), pairs_of(s.melds[2]), x);
            vstd::seq_lib::lemma_seq_concat_contains_all_elements(pairs_of(s.melds[0]) + pairs_of(s.melds[1]) + pairs_of(s.melds[2]), pairs_of(s.melds[3]), x);
        }
    }
    out
}

/// Index of the first `t`, if any.
pub open spec fn first_pos(s: Seq<i32>, t: i32) -> Option<int>
    decreases s.len(),
{
    if s.len() == 0 {
        None
    } else if s[0] == t {
        Some(0)
    } else {
        match first_pos(s.drop_first(), t) {
            Some(i) => Some(i + 1),
            None => None,
        }
    }
}

proof fn lemma_first_pos(s: Seq<i32>, t: i32, p: int)
    requires
        0 <= p <= s.len(),
        forall|j: int| 0 <= j < p ==> #[trigger] s[j] != t,
        p < s.len() ==> s[p] == t,
    ensures
        p < s.len() ==> first_pos(s, t) == Some(p),
        p == s.len() ==> first_pos(s, t).is_none(),
    decreases p,
{
    if p > 0 {
        lemma_first_pos(s.drop_first(), t, p - 1);
    }
}

/// Position of the first `t` in the river.
fn find_tile(river: &Vec<i32>, t: i32) -> (r: Option<usize>)
    ensures
        match r {
            Some(i) => first_pos(river@, t) == Some(i as int),
            None => first_pos(river@, t).is_none(),
        },
{
    let mut p: usize = 0;
    while p < river.len() && river[p] != t
        invariant
            0 <= p <= river.len(),
            forall|j: int| 0 <= j < p ==> #[trigger] river@[j] != t,
        decreases river.len() - p,
    {
        p = p + 1;
    }
    proof {
        lemma_first_pos(river@, t, p as int);
    }
    if p < river.len() {
        Some(p)
    } else {
        None
    }
}

/// The river positions of `player` holding a called tile: for each listed
/// tile taken from that seat, the first place it lies in the river.
pub fn stolen_positions(stolen: &Vec<(usize, i32)>, river: &Vec<i32>, player: usize) -> (r: Vec<usize>)
    ensures
        r@.no_duplicates(),
        forall|i: usize| #[trigger] r@.contains(i) <==> exists|k: int| 0 <= k < stolen@.len() && stolen@[k].0 == player
            && first_pos(river@, #[trigger] stolen@[k].1) == Some(i as int),
{
    let mut out: Vec<usize> = Vec::new();
    let mut k: usize = 0;
    while k < stolen.len()
        invariant
            0 <= k <= stolen.len(),
            out@.no_duplicates(),
            forall|i: usize| #[trigger] out@.contains(i) <==> exists|j: int| 0 <= j < k && stolen@[j].0 == player
                && first_pos(river@, #[trigger] stolen@[j].1) == Some(i as int),
        decreases stolen.len() - k,
    {
        let (from_p, inst) = stolen[k];
        if from_p == player {
            match find_tile(river, inst) {
                Some(pos) => {
                    let mut present = false;
                    let mut q: usize = 0;
                    while q < out.len()
                        invariant
                            0 <= q <= out.len(),
                            present == exists|z: int| 0 <= z < q && out@[z] == pos,
                        decreases out.len() - q,
                    {
                        if out[q] == pos {
                            present = true;
                        }
                        q = q + 1;
                    }
                    let ghost before = out@;
                    if !present {
                        out.push(pos);
                    }
                    proof {
                        assert(out@.contains(pos)) by {
                            if present {
                                let z = choose|z: int| 0 <= z < q && before[z] == pos;
                                assert(out@[z] == pos);
                            } else {
                                assert(out@[before.len() as int] == pos);
                            }
                        }
                        assert forall|i: usize| #[trigger] out@.contains(i) implies exists|j: int| 0 <= j < k + 1
                            && stolen@[j].0 == player && first_pos(river@, #[trigger] stolen@[j].1) == Some(i as int) by {
                            if before.contains(i) {
                                let j = choose|j: int| 0 <= j < k && stolen@[j].0 == player
                                    && first_pos(river@, #[trigger] stolen@[j].1) == Some(i as int);
                                assert(0 <= j < k + 1);
                            } else {
                                let z = choose|z: int| 0 <= z < out@.len() && out@[z] == i;
                                assert(i == pos);
                                assert(stolen@[k as int].0 == player && first_pos(river@, stolen@[k as int].1) == Some(i as int));
                            }
                        }
                        assert forall|i: usize| (exists|j: int| 0 <= j < k + 1 && stolen@[j].0 == player
                            && first_pos(river@, #[trigger] stolen@[j].1) == Some(i as int)) implies #[trigger] out@.contains(i) by {
                            let j = choose|j: int| 0 <= j < k + 1 && stolen@[j].0 == player
                                && first_pos(river@, #[trigger] stolen@[j].1) == Some(i as int);
                            if j < k {
                                assert(before.contains(i));
                                let z = choose|z: int| 0 <= z < before.len() && before[z] == i;
                                assert(out@[z] == i);
                            } else {
                                assert(i == pos);
                            }
                        }
                        assert(out@.no_duplicates()) by {
                            if !present {
                                assert forall|a: int, b: int| 0 <= a < out@.len() && 0 <= b < out@.len() && a != b implies out@[a] != out@[b] by {
                                    if a == before.len() {
                                        assert(!(exists|z: int| 0 <= z < before.len() && before[z] == pos));
                                        assert(before[b] != pos);
                                    } else if b == before.len() {
                                        assert(before[a] != pos);
                                    }
                                }
                            }
                        }
                    }
                },
                None => {},
            }
        }
        k = k + 1;
    }
    out
}

// ── hand ──────────────────────────────────────────────────────

/// The tiles of a hand in the order they are drawn, for the seat to act
/// with a drawn tile: the rest sorted, the drawn tile appended unless a copy
/// of it is still among them.
pub open spec fn hand_tiles(hand: Seq<i32>, drawn: i32, is_actor: bool) -> Seq<i32> {
    if is_actor && drawn >= 0 {
        let s = sorted_tiles(remove_first(hand, drawn));
        if s.contains(drawn) { s } else { s.push(drawn) }
    } else {
        sorted_tiles(hand)
    }
}

/// The hand in drawing order and the tile shown apart (-1 for none).
pub fn hand_display(hand: &[i32], drawn: i32, is_actor: bool) -> (r: (Vec<i32>, i32))
    ensures
        r.0@ == hand_tiles(hand@, drawn, is_actor),
        r.1 == (if is_actor && drawn >= 0 { drawn } else { -1i32 }),
{
    let (sorted, dr) = if is_actor && drawn >= 0 {
        sort_hand_with_draw(hand, drawn)
    } else {
        (sort_hand(hand), -1)
    };
    let mut display = sorted;
    if dr >= 0 {
        let mut present = false;
        let mut i: usize = 0;
        while i < display.len()
            invariant
                0 <= i <= display.len(),
                present == exists|k: int| 0 <= k < i && display@[k] == dr,
            decreases display.len() - i,
        {
            if display[i] == dr {
                present = true;
            }
            i = i + 1;
        }
        if !present {
            display.push(dr);
        }
    }
    (display, dr)
}

// ── meld layout ───────────────────────────────────────────────

/// Slot (0 left, 1 middle, 2 right) of the called tile of a meld of
/// `player` whose tile came from `from`: from the seat to the right the
/// rightmost slot, from across the middle, from the left the leftmost
/// (the middle for anything else).  The seat difference is taken on `i8`,
/// wrapping.
pub open spec fn called_slot(from: i8, player: int) -> int {
    let d = from.wrapping_add(4).wrapping_sub(player as i8);
    if d >= 0 && d % 4 == 1 {
        2
    } else if d >= 0 && d % 4 == 3 {
        0
    } else {
        1
    }
}

/// The tiles of the meld other than the called one (all of them when
/// nothing was called), in order.
pub open spec fn other_tiles(tiles: Seq<i32>, has_call: bool, called: i32) -> Seq<i32>
    decreases tiles.len(),
{
    if tiles.len() == 0 {
        Seq::empty()
    } else {
        let rest = other_tiles(tiles.drop_last(), has_call, called);
        if !has_call || tiles.last() != called {
            rest.push(tiles.last())
        } else {
            rest
        }
    }
}

/// How many non-called slots come before slot `p`.
pub open spec fn slot_rank(has_call: bool, p: int, pos: int) -> int {
    if has_call && p > pos { p - 1 } else { p }
}

/// The three slots of a meld: the called tile in its slot, the other tiles
/// in order in the remaining slots, -1 where none is left.
pub open spec fn meld_slots(m: MeldView, player: int) -> Seq<i32> {
    let has_call = m.from_player >= 0;
    let pos = if has_call { called_slot(m.from_player, player) } else { 1 };
    let others = other_tiles(m.tiles, has_call, m.called_tile);
    Seq::new(3, |p: int| if has_call && p == pos {
        m.called_tile
    } else {
        let k = slot_rank(has_call, p, pos);
        if k < others.len() { others[k] } else { -1i32 }
    })
}

/// The slot of the called tile and the three slots of a meld of `player`.
pub fn meld_layout(meld: &MeldEntry, player: usize) -> (r: (usize, [i32; 3]))
    requires
        player < 4,
    ensures
        r.0 == (if meld@.from_player >= 0 { called_slot(meld@.from_player, player as int) } else { 1 }),
        r.1@ == meld_slots(meld@, player as int),
{
    let has_call = meld.from_player >= 0;
    let pos: usize = if has_call {
        let d = meld.from_player.wrapping_add(4).wrapping_sub(player as i8);
        if d >= 0 && d % 4 == 1 {
            2
        } else if d >= 0 && d % 4 == 3 {
            0
        } else {
            1
        }
    } else {
        1
    };
    let mut others: Vec<i32> = Vec::new();
    let mut i: usize = 0;
    while i < meld.tiles.len()
        invariant
            0 <= i <= meld.tiles.len(),
            others@ == other_tiles(meld.tiles@.take(i as int), has_call, meld.called_tile),
        decreases meld.tiles.len() - i,
    {
        assert(meld.tiles@.take(i + 1).drop_last() =~= meld.tiles@.take(i as int));
        let t = meld.tiles[i];
        if !has_call || t != meld.called_tile {
            others.push(t);
        }
        i = i + 1;
    }
    assert(meld.tiles@.take(meld.tiles.len() as int) =~= meld.tiles@);
    let mut slots = [-1i32; 3];
    let mut oi: usize = 0;
    let mut p: usize = 0;
    while p < 3
        invariant
            0 <= p <= 3,
            pos < 3,
            others@ == other_tiles(meld.tiles@, has_call, meld.called_tile),
            oi == (if slot_rank(has_call, p as int, pos as int) <= others.len() {
                slot_rank(has_call, p as int, pos as int)
            } else {
                others.len() as int
            }),
            forall|q: int| 0 <= q < p ==> slots@[q] == meld_slots(meld@, player as int)[q],
            forall|q: int| p <= q < 3 ==> slots@[q] == -1,
            has_call == (meld.from_player >= 0),
            player < 4,
            has_call ==> pos == called_slot(meld.from_player, player as int),
            !has_call ==> pos == 1,
        decreases 3 - p,
    {
        let ghost ms = meld_slots(meld@, player as int);
        let ghost kp = slot_rank(has_call, p as int, pos as int);
        assert(ms[p as int] == (if has_call && p == pos {
            meld.called_tile
        } else if kp < others@.len() {
            others@[kp]
        } else {
            -1i32
        }));
        if p == pos && has_call {
            slots[p] = meld.called_tile;
        } else if oi < others.len() {
            slots[p] = others[oi];
            oi = oi + 1;
        }
        assert(slots@[p as int] == ms[p as int]);
        p = p + 1;
    }
    assert(slots@ =~= meld_slots(meld@, player as int));
    (pos, slots)
}

/// A closed kan of four tiles is laid out as back, two tiles, back (-1
/// standing for a back); `None` for any other meld.
pub fn closed_kan_faces(meld: &MeldEntry) -> (r: Option<[i32; 4]>)
    ensures
        match r {
            Some(f) => meld@.meld_type == "ankan"@ && meld@.tiles.len() == 4
                && f@ == seq![-1i32, meld@.tiles[0], meld@.tiles[1], -1i32],
            None => !(meld@.meld_type == "ankan"@ && meld@.tiles.len() == 4),
        },
{
    if eq_lit(&meld.meld_type, "ankan") && meld.tiles.len() == 4 {
        let f = [-1i32, meld.tiles[0], meld.tiles[1], -1i32];
        assert(f@ =~= seq![-1i32, meld@.tiles[0], meld@.tiles[1], -1i32]);
        Some(f)
    } else {
        None
    }
}

proof fn lemma_pairs_of_contains(ms: Seq<MeldView>, x: (usize, i32))
    ensures
        pairs_of(ms).contains(x) <==> exists|i: int|
            0 <= i < ms.len() && called_from(#[trigger] ms[i]) && x == (ms[i].from_player as usize, ms[i].called_tile),
    decreases ms.len(),
{
    if ms.len() > 0 {
        let rest = ms.drop_last();
        lemma_pairs_of_contains(rest, x);
        if pairs_of(rest).contains(x) {
            let i = choose|i: int|
                0 <= i < rest.len() && called_from(#[trigger] rest[i]) && x == (rest[i].from_player as usize, rest[i].called_tile);
            assert(ms[i] == rest[i]);
        }
        if exists|i: int|
            0 <= i < ms.len() && called_from(#[trigger] ms[i]) && x == (ms[i].from_player as usize, ms[i].called_tile) {
            let i = choose|i: int|
                0 <= i < ms.len() && called_from(#[trigger] ms[i]) && x == (ms[i].from_player as usize, ms[i].called_tile);
            if i < rest.len() {
                assert(rest[i] == ms[i]);
            } else {
                let l = ms.last();
                assert(pairs_of(ms) == pairs_of(rest).push((l.from_player as usize, l.called_tile)));
                assert(pairs_of(ms)[pairs_of(rest).len() as int] == x);
            }
        }
        if called_from(ms.last()) {
            let l = ms.last();
            assert(pairs_of(ms) == pairs_of(rest).push((l.from_player as usize, l.called_tile)));
            if pairs_of(ms).contains(x) && x != (l.from_player as usize, l.called_tile) {
                let j = choose|j: int| 0 <= j < pairs_of(ms).len() && pairs_of(ms)[j] == x;
                assert(pairs_of(rest)[j] == x);
            }
            if pairs_of(rest).contains(x) {
                let j = choose|j: int| 0 <= j < pairs_of(rest).len() && pairs_of(rest)[j] == x;
                assert(pairs_of(ms)[j] == x);
            }
        }
    }
}

/// The tiles marked as called away are exactly those that some seat's meld
/// took from another seat's river: a pair (source seat, tile) is listed if
/// and only if one of the four seats holds a meld that called that tile
/// from that seat.
pub proof fn law_stolen_tiles(s: SnapView, x: (usize, i32))
    requires
        s.melds.len() == 4,
    ensures
        stolen_pairs(s).contains(x) <==> exists|p: int, i: int|
            0 <= p < 4 && 0 <= i < s.melds[p].len() && called_from(#[trigger] s.melds[p][i])
                && x == (s.melds[p][i].from_player as usize, s.melds[p][i].called_tile),
{
    let a = pairs_of(s.melds[0]);
    let b = pairs_of(s.melds[1]);
    let c = pairs_of(s.melds[2]);
    let d = pairs_of(s.melds[3]);
    vstd::seq_lib::lemma_seq_concat_contains_all_elements(a, b, x);
    vstd::seq_lib::lemma_seq_concat_contains_all_elements(a + b, c, x);
    vstd::seq_lib::lemma_seq_concat_contains_all_elements(a + b + c, d, x);
    lemma_pairs_of_contains(s.melds[0], x);
    lemma_pairs_of_contains(s.melds[1], x);
    lemma_pairs_of_contains(s.melds[2], x);
    lemma_pairs_of_contains(s.melds[3], x);
    if exists|p: int, i: int|
        0 <= p < 4 && 0 <= i < s.melds[p].len() && called_from(#[trigger] s.melds[p][i])
            && x == (s.melds[p][i].from_player as usize, s.melds[p][i].called_tile) {
        let (p, i) = choose|p: int, i: int|
            0 <= p < 4 && 0 <= i < s.melds[p].len() && called_from(#[trigger] s.melds[p][i])
                && x == (s.melds[p][i].from_player as usize, s.melds[p][i].called_tile);
        assert(p == 0 || p == 1 || p == 2 || p == 3);
    }
}

} // verus!
