//! Tenhou mjlog parsing: a single pass over the XML events driving a state
//! machine that emits one [`Snapshot`] per decision.
//!
//! - every snapshot records all four hands (full-information view);
//! - each winner of a round gets a row of its own (multiple ron);
//! - a kan is a row of its own, the following draw/discard another;
//! - a drawn round adds no row (its last discard is the final state);
//! - tiles keep their Tenhou instance ids (0-135, red fives included).

use vstd::prelude::*;

use crate::snapshot::{GameState, GameView, MeldEntry, MeldView, Snapshot, SnapView, copy_melds, init_view, meld_views, snap_views};
use crate::xml::{XmlItem, attr_pairs, event_of, events_of, lowercase, read_events, utf8_lossy, xml_items};
use crate::json::{plain_char, plain_meld};
use crate::text::{all_digits, append_chars, chars_eq, chars_eq_lit, eq_lit, chars_of, int_chars, parse_int, parse_int_spec, split_chars, split_spec, string_of, views};

verus! {

// ── attributes ────────────────────────────────────────────────

/// Attribute list of a tag: (lower-cased name, value) pairs in document order.
pub open spec fn attr_views(a: Seq<(String, String)>) -> Seq<(Seq<char>, Seq<char>)> {
    a.map_values(|p: (String, String)| (p.0@, p.1@))
}

/// Value of the attribute `k`; when a name repeats, the last one wins.
pub open spec fn attr_get(a: Seq<(Seq<char>, Seq<char>)>, k: Seq<char>) -> Option<Seq<char>>
    decreases a.len(),
{
    if a.len() == 0 {
        None
    } else if a.last().0 == k {
        Some(a.last().1)
    } else {
        attr_get(a.drop_last(), k)
    }
}

/// Integer attribute with a default: `get(k).and_then(parse).unwrap_or(d)`.
pub open spec fn attr_int(a: Seq<(Seq<char>, Seq<char>)>, k: Seq<char>, d: int, signed: bool, lo: int, hi: int) -> int {
    match attr_get(a, k) {
        Some(v) => match parse_int_spec(v, signed, lo, hi) {
            Some(x) => x,
            None => d,
        },
        None => d,
    }
}

pub open spec fn parse_i32(s: Seq<char>) -> Option<int> {
    parse_int_spec(s, true, i32::MIN as int, i32::MAX as int)
}

pub open spec fn attr_i32(a: Seq<(Seq<char>, Seq<char>)>, k: Seq<char>, d: int) -> i32 {
    attr_int(a, k, d, true, i32::MIN as int, i32::MAX as int) as i32
}

pub open spec fn attr_i8(a: Seq<(Seq<char>, Seq<char>)>, k: Seq<char>, d: int) -> i8 {
    attr_int(a, k, d, true, i8::MIN as int, i8::MAX as int) as i8
}

/// The integers among the comma-separated fields (unparsable fields dropped).
pub open spec fn parsed_ints(pieces: Seq<Seq<char>>) -> Seq<i32>
    decreases pieces.len(),
{
    if pieces.len() == 0 {
        Seq::empty()
    } else {
        let rest = parsed_ints(pieces.drop_last());
        match parse_i32(pieces.last()) {
            Some(x) => rest.push(x as i32),
            None => rest,
        }
    }
}

// ── tags ──────────────────────────────────────────────────────

/// A tag name is accepted when it is empty or starts with an ASCII character.
pub open spec fn tag_ok(tag: Seq<char>) -> bool {
    tag.len() == 0 || (tag[0] as u32) < 128
}

/// First character of the tag (`'?'` if empty) and the integer after it
/// (`None` for tags of fewer than two characters or a non-integer rest).
pub open spec fn split_tag_spec(tag: Seq<char>) -> (char, Option<int>) {
    if tag.len() < 2 {
        (if tag.len() == 0 { '?' } else { tag[0] }, None)
    } else {
        (tag[0], parse_i32(tag.drop_first()))
    }
}

// ── tile helpers ──────────────────────────────────────────────

/// Integer quotient by four, rounded towards zero (the tile kind of an id).
pub open spec fn kind_of(x: i32) -> int {
    if x >= 0 {
        x / 4
    } else {
        -((-x) / 4)
    }
}

pub open spec fn tile_le() -> spec_fn(i32, i32) -> bool {
    |x: i32, y: i32| x <= y
}

/// The tiles in ascending order.
pub open spec fn sorted_tiles(s: Seq<i32>) -> Seq<i32> {
    s.sort_by(tile_le())
}

/// `s` without its first occurrence of `x` (unchanged if absent).
pub open spec fn remove_first(s: Seq<i32>, x: i32) -> Seq<i32>
    decreases s.len(),
{
    if s.len() == 0 {
        s
    } else if s[0] == x {
        s.drop_first()
    } else {
        seq![s[0]] + remove_first(s.drop_first(), x)
    }
}

/// `s` with every occurrence of `x` removed.
pub open spec fn without(s: Seq<i32>, x: i32) -> Seq<i32>
    decreases s.len(),
{
    if s.len() == 0 {
        s
    } else if s.last() == x {
        without(s.drop_last(), x)
    } else {
        without(s.drop_last(), x).push(s.last())
    }
}

/// Index of the first element of kind `k`, if any.
pub open spec fn first_of_kind(s: Seq<i32>, k: int) -> Option<int>
    decreases s.len(),
{
    if s.len() == 0 {
        None
    } else if kind_of(s[0]) == k {
        Some(0)
    } else {
        match first_of_kind(s.drop_first(), k) {
            Some(i) => Some(i + 1),
            None => None,
        }
    }
}

/// Number of tiles of kind `k`.
pub open spec fn count_of_kind(s: Seq<i32>, k: int) -> nat
    decreases s.len(),
{
    if s.len() == 0 {
        0
    } else {
        count_of_kind(s.drop_last(), k) + (if kind_of(s.last()) == k { 1nat } else { 0nat })
    }
}

// ── scores ────────────────────────────────────────────────────

/// Scores after reading a comma-separated list: the first four fields that
/// parse replace the score of their seat, the others leave it as it is.
pub open spec fn update_scores_spec(sc: Seq<i32>, pieces: Seq<Seq<char>>, n: int) -> Seq<i32>
    decreases n,
{
    if n <= 0 {
        sc
    } else {
        let prev = update_scores_spec(sc, pieces, n - 1);
        let i = n - 1;
        if i < 4 && i < pieces.len() {
            match parse_i32(pieces[i]) {
                Some(x) => prev.update(i, x as i32),
                None => prev,
            }
        } else {
            prev
        }
    }
}

pub open spec fn update_scores_full(sc: Seq<i32>, s: Seq<char>) -> Seq<i32> {
    update_scores_spec(sc, split_spec(s, ','), 4)
}

/// Scores after a settlement list `sc="s0,d0,s1,d1,…"`: each seat adds its
/// delta (the odd-indexed integer), wrapping on overflow.
pub open spec fn apply_sc_spec(sc: Seq<i32>, s: Seq<char>) -> Seq<i32> {
    let vals = parsed_ints(split_spec(s, ','));
    Seq::new(4, |i: int| if 2 * i + 1 < vals.len() { sc[i].wrapping_add(vals[2 * i + 1]) } else { sc[i] })
}

// ── meld decoding ─────────────────────────────────────────────

/// Decoded meld: (type, guessed tile ids, guessed called tile, from seat, called position).
pub open spec fn decode_meld_spec(m: u32, who: i8) -> (Seq<char>, Seq<i32>, i32, i8, i8) {
    if m & 0x0004 != 0 {
        let p0 = ((m >> 10u32) & 0x3F) as int;
        let r = p0 % 3;
        let p = p0 / 3;
        let s = p / 7;
        let n0 = p % 7;
        let ids = seq![((s * 9 + n0) * 4) as i32, ((s * 9 + n0 + 1) * 4) as i32, ((s * 9 + n0 + 2) * 4) as i32];
        ("chi"@, ids, ids[r], ((who + 3) % 4) as i8, r as i8)
    } else if m & 0x0018 != 0 {
        let p0 = ((m >> 9u32) & 0x7F) as int;
        let r = p0 % 3;
        let p = p0 / 3;
        let tid = (p / 9) * 9 + p % 9;
        if m & 0x0010 != 0 {
            ("kakan"@, seq![(tid * 4) as i32, (tid * 4 + 1) as i32, (tid * 4 + 2) as i32, (tid * 4 + 3) as i32], 0i32, -1i8, -1i8)
        } else {
            let ts = seq![(tid * 4) as i32, (tid * 4 + 1) as i32, (tid * 4 + 2) as i32];
            ("pon"@, ts, ts[r], ((who + 1 + r) % 4) as i8, r as i8)
        }
    } else {
        let p = ((m >> 8u32) & 0xFF) as int / 4;
        let tid = (p / 9) * 9 + p % 9;
        ("ankan"@, seq![(tid * 4) as i32, (tid * 4 + 1) as i32, (tid * 4 + 2) as i32, (tid * 4 + 3) as i32], 0i32, -1i8, -1i8)
    }
}

// ── snapshots ─────────────────────────────────────────────────

/// The snapshot of the current state for a decision of `actor`.
pub open spec fn capture_spec(g: GameView, actor: i8, at: Seq<char>, drawn: i32, called: i32, discard: i32) -> SnapView {
    SnapView {
        game_id: g.game_id,
        seq: g.seq,
        honba: g.honba,
        oya: g.oya,
        turns: g.turns,
        actor: actor,
        hand_before: g.hands,
        rivers: g.rivers,
        river_tsumo: g.river_tsumo,
        melds: g.melds,
        scores: g.scores,
        riichi: g.riichi,
        riichi_turn: g.riichi_seq,
        riichi_tile: g.riichi_tile,
        dora_indicators: g.dora_indicators,
        wall_remaining: g.wall_remaining,
        riichi_sticks: g.riichi_sticks,
        action_type: at,
        drawn_tile: drawn,
        called_tile: called,
        discard_tile: discard,
        is_tsumogiri: false,
        round_end_kind: -1i8,
        round_winner: -1i8,
        round_point_delta: seq![0i32, 0i32, 0i32, 0i32],
        round_tenpai_count: -1i8,
        agari_han_ids: Seq::empty(),
        agari_han: 0i32,
        agari_fu: 0i32,
        agari_points: 0i32,
        agari_from: -1i8,
        agari_ura_dora: Seq::empty(),
    }
}

/// Appends a snapshot and advances the row number.
pub open spec fn push_snap(g: GameView, s: SnapView) -> GameView {
    GameView { snapshots: g.snapshots.push(s), seq: g.seq.wrapping_add(1), ..g }
}

/// Row for a plain discard: `"reach"` when riichi is pending for the seat,
/// else `"tsumogiri"` when the tile is the one just drawn, else `"discard"`.
pub open spec fn emit_discard_spec(g: GameView, actor: i8, tile: i32) -> GameView {
    let at = if g.pending_reach_player == actor {
        "reach"@
    } else if g.last_draw == tile {
        "tsumogiri"@
    } else {
        "discard"@
    };
    push_snap(g, SnapView { is_tsumogiri: g.last_draw == tile, ..capture_spec(g, actor, at, g.last_draw, -1i32, tile) })
}

/// Row for the discard that follows a chi/pon, labelled with the call; the
/// called tile is the one taken in.
pub open spec fn emit_meld_discard_spec(g: GameView, actor: i8, tile: i32, mt: Seq<char>, called: i32) -> GameView {
    push_snap(g, capture_spec(g, actor, mt, called, called, tile))
}

/// Row for a kan declaration.
pub open spec fn emit_kan_spec(g: GameView, actor: i8, kt: Seq<char>, kan_tile: i32) -> GameView {
    let (drawn, called, discard) = if kt == "ankan"@ || kt == "kakan"@ {
        (g.last_draw, -1i32, kan_tile)
    } else if kt == "daiminkan"@ || kt == "shominkan"@ {
        (kan_tile, kan_tile, -1i32)
    } else {
        (-1i32, -1i32, -1i32)
    };
    push_snap(g, capture_spec(g, actor, kt, drawn, called, discard))
}

// ── transitions ───────────────────────────────────────────────

/// Structural invariant of the state: the per-seat river lists stay in step
/// and the round start lies within the rows.
pub open spec fn wf(g: GameView) -> bool {
    &&& g.hands.len() == 4
    &&& g.rivers.len() == 4
    &&& g.river_tsumo.len() == 4
    &&& g.river_seq.len() == 4
    &&& g.melds.len() == 4
    &&& g.scores.len() == 4
    &&& g.turns.len() == 4
    &&& g.riichi.len() == 4
    &&& forall|i: int| 0 <= i < 4 ==> #[trigger] g.rivers[i].len() == g.river_seq[i].len()
    &&& 0 <= g.round_start_idx <= g.snapshots.len()
}

/// Draw of `tile` by seat `p`.
pub open spec fn draw_spec(g: GameView, p: int, tile: i32) -> GameView {
    GameView {
        wall_remaining: if g.next_draw_from_dead_wall { g.wall_remaining } else { g.wall_remaining.wrapping_sub(1) },
        next_draw_from_dead_wall: false,
        last_draw: tile,
        actor: p as i8,
        hands: g.hands.update(p, sorted_tiles(g.hands[p].push(tile))),
        ..g
    }
}

/// Discard of `tile` by seat `p`, completing a pending riichi or call.
pub open spec fn discard_spec(g: GameView, pending: Option<(Seq<char>, i32)>, p: int, tile: i32) -> GameView {
    let is_reach = g.pending_reach_player == p;
    let g1 = if is_reach {
        GameView {
            riichi: g.riichi.update(p, true),
            riichi_seq: g.riichi_seq.update(p, g.seq),
            riichi_tile: g.riichi_tile.update(p, tile),
            ..g
        }
    } else {
        g
    };
    let g2 = match pending {
        Some((mt, ct)) => emit_meld_discard_spec(g1, p as i8, tile, mt, ct),
        None => emit_discard_spec(g1, p as i8, tile),
    };
    let g3 = if is_reach { GameView { pending_reach_player: -1i8, ..g2 } } else { g2 };
    GameView {
        hands: g3.hands.update(p, without(g3.hands[p], tile)),
        rivers: g3.rivers.update(p, g3.rivers[p].push(tile)),
        river_tsumo: g3.river_tsumo.update(p, g3.river_tsumo[p].push(g3.last_draw == tile)),
        river_seq: g3.river_seq.update(p, g3.river_seq[p].push(g3.seq)),
        turns: g3.turns.update(p, g3.turns[p].wrapping_add(1)),
        last_draw: -1i32,
        ..g3
    }
}

/// The most recent discard of kind `k` among the first `n` tiles of one
/// river, improving on `acc = (tile, seat, row)`.
pub open spec fn scan_river(r: Seq<i32>, rs: Seq<i32>, fp: int, k: int, acc: (i32, i8, i32), n: int) -> (i32, i8, i32)
    decreases n,
{
    if n <= 0 {
        acc
    } else {
        let a = scan_river(r, rs, fp, k, acc, n - 1);
        let pos = n - 1;
        if kind_of(r[pos]) == k && rs[pos] > a.2 {
            (r[pos], fp as i8, rs[pos])
        } else {
            a
        }
    }
}

/// The same scan over the rivers of seats `0..n` other than `who`.
pub open spec fn scan_seats(g: GameView, who: int, k: int, acc: (i32, i8, i32), n: int) -> (i32, i8, i32)
    decreases n,
{
    if n <= 0 {
        acc
    } else {
        let a = scan_seats(g, who, k, acc, n - 1);
        let fp = n - 1;
        if fp == who {
            a
        } else {
            scan_river(g.rivers[fp], g.river_seq[fp], fp, k, a, g.rivers[fp].len() as int)
        }
    }
}

/// The guessed meld tiles made concrete: the guessed called tile becomes the
/// actual one, every other tile the first tile of its kind still unused in
/// the hand (kept as guessed if none).  Returns the tiles and the unused rest.
pub open spec fn resolve_tiles(tiles: Seq<i32>, n: int, guess: i32, called: i32, hand: Seq<i32>) -> (Seq<i32>, Seq<i32>)
    decreases n,
{
    if n <= 0 {
        (Seq::empty(), hand)
    } else {
        let (out, hc) = resolve_tiles(tiles, n - 1, guess, called, hand);
        let t = tiles[n - 1];
        if t == guess {
            (out.push(called), hc)
        } else {
            match first_of_kind(hc, kind_of(t)) {
                Some(i) => (out.push(hc[i]), hc.remove(i)),
                None => (out.push(t), hc),
            }
        }
    }
}

/// Removes from the hand the first `n` of `tiles` other than `called`.
pub open spec fn remove_except(h: Seq<i32>, tiles: Seq<i32>, called: i32, n: int) -> Seq<i32>
    decreases n,
{
    if n <= 0 {
        h
    } else {
        let prev = remove_except(h, tiles, called, n - 1);
        if tiles[n - 1] != called {
            remove_first(prev, tiles[n - 1])
        } else {
            prev
        }
    }
}

/// Removes from the hand the first `n` of `tiles`.
pub open spec fn remove_all(h: Seq<i32>, tiles: Seq<i32>, n: int) -> Seq<i32>
    decreases n,
{
    if n <= 0 {
        h
    } else {
        remove_first(remove_all(h, tiles, n - 1), tiles[n - 1])
    }
}

/// The hand after a meld: open melds lose their tiles except the called one,
/// an added kan loses its first tile, a closed kan all of them.
pub open spec fn remove_meld_spec(h: Seq<i32>, mt: Seq<char>, tiles: Seq<i32>, called: i32) -> Seq<i32> {
    if mt == "chi"@ || mt == "pon"@ || mt == "daiminkan"@ || mt == "shominkan"@ {
        remove_except(h, tiles, called, tiles.len() as int)
    } else if mt == "kakan"@ {
        remove_first(h, tiles[0])
    } else {
        remove_all(h, tiles, tiles.len() as int)
    }
}

/// A kan: one tile fewer in the live wall, the next draw from the dead wall.
pub open spec fn kan_prep(g: GameView) -> GameView {
    GameView { wall_remaining: g.wall_remaining.wrapping_sub(1), next_draw_from_dead_wall: true, ..g }
}

/// The tile a call takes and its source seat: for a call from another seat
/// (chi, pon), the most recent discard of the guessed tile's kind by a seat
/// other than `who`, if any (improving on the guess); for a closed or added
/// kan, the guess itself (tile 0, no source).
pub open spec fn call_source(g: GameView, who: int, guess: i32, from_guess: i8) -> (i32, i8, i32) {
    if from_guess >= 0 {
        scan_seats(g, who, kind_of(guess), (guess, from_guess, -1i32), 4)
    } else {
        (guess, from_guess, -1i32)
    }
}

/// A call (tag `N`) by seat `who` of the packed meld `m`.  The meld is
/// added at once; a kan's row shows the hand from before the kan, whose
/// tiles leave the hand after the row.
pub open spec fn meld_spec(g: GameView, pending: Option<(Seq<char>, i32)>, who: int, m: u32) -> (GameView, Option<(Seq<char>, i32)>) {
    let (tp, tiles0, guess, from_guess, called_pos) = decode_meld_spec(m, who as i8);
    let (called, from, best) = call_source(g, who, guess, from_guess);
    let (tiles1, rest) = resolve_tiles(tiles0, tiles0.len() as int, guess, called, g.hands[who]);
    let mt = if tp == "pon"@ && count_of_kind(g.hands[who], kind_of(called)) >= 3 { "daiminkan"@ } else { tp };
    let tiles2 = sorted_tiles(tiles1);
    let entry = MeldView {
        meld_type: mt,
        tiles: tiles2,
        called_tile: called,
        from_player: from,
        discard_n: g.turns[who],
        called_pos: called_pos,
    };
    let g1 = GameView {
        melds: g.melds.update(who, g.melds[who].push(entry)),
        actor: who as i8,
        last_draw: if called > 0 { called } else { g.last_draw },
        ..g
    };
    let hands = g.hands.update(who, remove_meld_spec(g.hands[who], mt, tiles1, called));
    if mt == "chi"@ || mt == "pon"@ {
        (GameView { hands: hands, ..g1 }, Some((mt, called)))
    } else if mt == "daiminkan"@ || mt == "shominkan"@ {
        (GameView { hands: hands, ..emit_kan_spec(kan_prep(g1), who as i8, mt, called) }, pending)
    } else if mt == "ankan"@ {
        (GameView { hands: hands, ..emit_kan_spec(kan_prep(g1), who as i8, mt, tiles2[0]) }, pending)
    } else if mt == "kakan"@ {
        (GameView { hands: hands, ..emit_kan_spec(kan_prep(g1), who as i8, mt, tiles2[3]) }, pending)
    } else {
        (GameView { hands: hands, ..g1 }, pending)
    }
}

/// Riichi declaration: step 1 marks the seat's next discard as the
/// declaration; step 2 (accepted) pays the 1000-point stick, adds it to the
/// table and applies the optional score list.
pub open spec fn reach_spec(g: GameView, who: i8, step: i32, ten: Option<Seq<char>>) -> GameView {
    if step == 1 {
        GameView { pending_reach_player: who, ..g }
    } else if step == 2 {
        let sc = g.scores.update(who as int, g.scores[who as int].wrapping_sub(10));
        GameView {
            scores: match ten {
                Some(t) => update_scores_full(sc, t),
                None => sc,
            },
            riichi_sticks: g.riichi_sticks.wrapping_add(1),
            ..g
        }
    } else {
        g
    }
}

/// A new dora indicator (ignored when `hai` is missing or not an integer).
pub open spec fn dora_spec(g: GameView, a: Seq<(Seq<char>, Seq<char>)>) -> GameView {
    match attr_get(a, "hai"@) {
        Some(h) => match parse_i32(h) {
            Some(t) => GameView { dora_indicators: g.dora_indicators.push(t as i32), ..g },
            None => g,
        },
        None => g,
    }
}

/// Attribute names `n0`..`n3`, `hai0`..`hai3`.
pub open spec fn seat_key(prefix: Seq<char>, i: int) -> Seq<char> {
    prefix.push(('0' as int + i) as char)
}

/// Name of seat `i` (`n{i}`, empty when missing).
pub open spec fn seat_name(a: Seq<(Seq<char>, Seq<char>)>, i: int) -> Seq<char> {
    match attr_get(a, seat_key("n"@, i)) {
        Some(v) => v,
        None => Seq::empty(),
    }
}

/// Ranks after reading `dan`: the first four fields, each parsed (0 when it
/// does not parse); seats without a field keep their rank.
pub open spec fn dans_spec(dans: Seq<i32>, d: Seq<char>) -> Seq<i32> {
    let ps = split_spec(d, ',');
    Seq::new(4, |i: int| if i < ps.len() {
        match parse_i32(ps[i]) {
            Some(x) => x as i32,
            None => 0i32,
        }
    } else {
        dans[i]
    })
}

/// Sexes after reading `sx`: the first four fields; seats without a field
/// keep theirs.
pub open spec fn sexes_spec(sexes: Seq<Seq<char>>, x: Seq<char>) -> Seq<Seq<char>> {
    let ps = split_spec(x, ',');
    Seq::new(4, |i: int| if i < ps.len() { ps[i] } else { sexes[i] })
}

/// Players: names, ranks (`dan`), sexes (`sx`), and the player count (3 when
/// the fourth seat has neither a rank nor a name).
pub open spec fn un_spec(g: GameView, a: Seq<(Seq<char>, Seq<char>)>) -> GameView {
    let names = Seq::new(4, |i: int| seat_name(a, i));
    let dans = match attr_get(a, "dan"@) {
        Some(d) => dans_spec(g.dans, d),
        None => g.dans,
    };
    let sexes = match attr_get(a, "sx"@) {
        Some(x) => sexes_spec(g.sexes, x),
        None => g.sexes,
    };
    GameView {
        names: names,
        dans: dans,
        sexes: sexes,
        num_players: if dans[3] == 0 && names[3].len() == 0 { 3 } else { 4 },
        ..g
    }
}

/// Dealt hand of seat `i` (`hai{i}`, sorted; empty when missing or empty).
pub open spec fn dealt_hand(a: Seq<(Seq<char>, Seq<char>)>, i: int) -> Seq<i32> {
    match attr_get(a, seat_key("hai"@, i)) {
        Some(h) => if h.len() > 0 { sorted_tiles(parsed_ints(split_spec(h, ','))) } else { Seq::<i32>::empty() },
        None => Seq::<i32>::empty(),
    }
}

/// Start of a round (`INIT`): per-round state cleared, then honba, sticks and
/// the first dora indicator from `seed`, scores from `ten`, the dealer, and
/// the dealt hands `hai0`..`hai3` (sorted).
pub open spec fn reset_spec(g: GameView, a: Seq<(Seq<char>, Seq<char>)>) -> GameView {
    let empty4 = seq![Seq::<i32>::empty(), Seq::<i32>::empty(), Seq::<i32>::empty(), Seq::<i32>::empty()];
    let seed = match attr_get(a, "seed"@) {
        Some(sd) => {
            let p = split_spec(sd, ',');
            if p.len() >= 6 {
                Some((
                    match parse_i32(p[1]) { Some(x) => x as i32, None => 0i32 },
                    match parse_i32(p[2]) { Some(x) => x as i32, None => 0i32 },
                    match parse_i32(p[5]) { Some(x) => x as i32, None => 0i32 },
                ))
            } else {
                None
            }
        },
        None => None,
    };
    let scores = match attr_get(a, "ten"@) {
        Some(t) => update_scores_full(g.scores, t),
        None => g.scores,
    };
    let hands = Seq::new(4, |i: int| dealt_hand(a, i));
    GameView {
        hands: hands,
        rivers: empty4,
        river_tsumo: seq![Seq::<bool>::empty(), Seq::<bool>::empty(), Seq::<bool>::empty(), Seq::<bool>::empty()],
        river_seq: empty4,
        melds: seq![Seq::<MeldView>::empty(), Seq::<MeldView>::empty(), Seq::<MeldView>::empty(), Seq::<MeldView>::empty()],
        riichi: seq![false, false, false, false],
        riichi_seq: seq![-1i32, -1i32, -1i32, -1i32],
        riichi_tile: seq![-1i32, -1i32, -1i32, -1i32],
        dora_indicators: match seed {
            Some(sd) => seq![sd.2],
            None => Seq::empty(),
        },
        last_draw: -1i32,
        wall_remaining: 70,
        next_draw_from_dead_wall: false,
        turns: seq![0i32, 0i32, 0i32, 0i32],
        pending_reach_player: -1i8,
        round_start_idx: g.snapshots.len() as int,
        honba: match seed { Some(sd) => sd.0, None => g.honba },
        riichi_sticks: match seed { Some(sd) => sd.1, None => g.riichi_sticks },
        scores: scores,
        oya: attr_i8(a, "oya"@, 0),
        round_start_scores: scores,
        ..g
    }
}

/// Score change from a row's scores to the final ones, per seat (wrapping).
pub open spec fn delta_spec(fin: Seq<i32>, s: Seq<i32>) -> Seq<i32> {
    Seq::new(4, |i: int| fin[i].wrapping_sub(s[i]))
}

/// Yaku list `id,han,id,han,…`: the ids and the han total (wrapping) of the
/// pairs read from position `k` on, added to `(ids, sum)`, up to the first
/// incomplete pair or pair with zero han.
pub open spec fn yaku_spec(vals: Seq<i32>, k: int, ids: Seq<i32>, sum: i32) -> (Seq<i32>, i32)
    decreases vals.len() - k,
{
    if k < 0 || k + 2 > vals.len() || vals[k + 1] == 0 {
        (ids, sum)
    } else {
        yaku_spec(vals, k + 2, ids.push(vals[k]), sum.wrapping_add(vals[k + 1]))
    }
}

/// A row of a round won by `who`: the outcome and the score change of the
/// round, from the scores `base` at its start to `fin`.
pub open spec fn win_mark(s: SnapView, end_kind: i8, who: i8, fin: Seq<i32>, base: Seq<i32>) -> SnapView {
    SnapView {
        round_end_kind: end_kind,
        round_winner: who,
        round_tenpai_count: -1i8,
        round_point_delta: delta_spec(fin, base),
        ..s
    }
}

/// A row of a drawn round: no winner, the tenpai count, the final riichi
/// flags and the score change of the round, from `base` to `fin`.
pub open spec fn draw_mark(s: SnapView, count: i8, riichi: Seq<bool>, fin: Seq<i32>, base: Seq<i32>) -> SnapView {
    SnapView {
        round_end_kind: 0i8,
        round_winner: -1i8,
        round_tenpai_count: count,
        riichi: riichi,
        round_point_delta: delta_spec(fin, base),
        ..s
    }
}

/// Fu and points from `ten="fu,points,…"` (0 for a field that does not parse or
/// is missing).
pub open spec fn fu_points(t: Seq<char>) -> (i32, i32) {
    let ps = split_spec(t, ',');
    (
        match parse_i32(ps[0]) { Some(x) => x as i32, None => 0i32 },
        if ps.len() > 1 { match parse_i32(ps[1]) { Some(x) => x as i32, None => 0i32 } } else { 0i32 },
    )
}

/// A win (`AGARI`): the winner's row with the win details, then the round
/// outcome written back to every row of the round.
pub open spec fn agari_spec(g: GameView, a: Seq<(Seq<char>, Seq<char>)>) -> GameView {
    let who = attr_i8(a, "who"@, 0);
    let from_who = attr_int(a, "fromwho"@, who as int, true, i8::MIN as int, i8::MAX as int) as i8;
    let machi = attr_i32(a, "machi"@, -1);
    let (fu, points) = match attr_get(a, "ten"@) {
        Some(t) => fu_points(t),
        None => (0i32, 0i32),
    };
    let (han_ids, total_han) = match attr_get(a, "yaku"@) {
        Some(y) => yaku_spec(parsed_ints(split_spec(y, ',')), 0, Seq::empty(), 0i32),
        None => (Seq::empty(), 0i32),
    };
    let is_tsumo = from_who == who;
    let snap0 = if is_tsumo {
        capture_spec(g, who, "tsumo"@, machi, -1i32, -1i32)
    } else {
        capture_spec(g, who, "ron"@, -1i32, machi, -1i32)
    };
    let ura = match attr_get(a, "dorahaiura"@) {
        Some(u) => parsed_ints(split_spec(u, ',')),
        None => Seq::empty(),
    };
    let end_kind: i8 = if is_tsumo { 1 } else { 2 };
    let fin = match attr_get(a, "sc"@) {
        Some(sc) => apply_sc_spec(g.scores, sc),
        None => g.scores,
    };
    let snap = win_mark(SnapView {
        agari_han_ids: han_ids,
        agari_han: total_han,
        agari_fu: fu,
        agari_points: points,
        agari_from: if is_tsumo { -1i8 } else { from_who },
        agari_ura_dora: ura,
        ..snap0
    }, end_kind, who, fin, g.round_start_scores);
    let rows = g.snapshots.push(snap);
    let start = g.round_start_idx;
    GameView {
        scores: fin,
        seq: g.seq.wrapping_add(1),
        snapshots: Seq::new(rows.len(), |j: int| if start <= j < rows.len() - 1 {
            win_mark(rows[j], end_kind, who, fin, g.round_start_scores)
        } else {
            rows[j]
        }),
        ..g
    }
}

/// Seats among `0..n` listed with a hand (`hai{i}`) or in riichi.
pub open spec fn tenpai_count(g: GameView, a: Seq<(Seq<char>, Seq<char>)>, n: int) -> int
    decreases n,
{
    if n <= 0 {
        0
    } else {
        tenpai_count(g, a, n - 1) + (if attr_get(a, seat_key("hai"@, n - 1)).is_some() || g.riichi[n - 1] { 1int } else { 0int })
    }
}

/// An exhaustive or abortive draw (`RYUUKYOKU`): the outcome written back to
/// every row of the round.
pub open spec fn ryuukyoku_spec(g: GameView, a: Seq<(Seq<char>, Seq<char>)>) -> GameView {
    let count = tenpai_count(g, a, 4) as i8;
    let fin = match attr_get(a, "sc"@) {
        Some(sc) => apply_sc_spec(g.scores, sc),
        None => g.scores,
    };
    let start = g.round_start_idx;
    GameView {
        scores: fin,
        snapshots: Seq::new(g.snapshots.len(), |j: int| if start <= j {
            draw_mark(g.snapshots[j], count, g.riichi, fin, g.round_start_scores)
        } else {
            g.snapshots[j]
        }),
        ..g
    }
}

// ── events ────────────────────────────────────────────────────

/// An XML event as the state machine reads it.
pub enum XmlEvent {
    /// A start or empty-element tag: lower-cased name, attributes (lower-cased
    /// names, unescaped values).
    Open { name: String, attrs: Vec<(String, String)> },
    /// An end tag (lower-cased name).
    Close { name: String },
    /// End of input.
    Eof,
    /// The XML reader reported an error.
    Error { message: String },
    /// Anything else (text, comments, declarations).
    Other,
}

/// How processing goes on after an event.
pub enum Flow {
    Go,
    Stop,
    Fail(Seq<char>),
}

/// Result of one step of the state machine.
pub enum StepResult {
    Continue,
    Stop,
    Fail(String),
}

pub open spec fn flow_of(r: StepResult) -> Flow {
    match r {
        StepResult::Continue => Flow::Go,
        StepResult::Stop => Flow::Stop,
        StepResult::Fail(m) => Flow::Fail(m@),
    }
}

/// Seat of a draw tag `T`/`U`/`V`/`W`.
pub open spec fn draw_seat(c: char) -> int {
    if c == 't' { 0 } else if c == 'u' { 1 } else if c == 'v' { 2 } else { 3 }
}

/// Seat of a discard tag `D`/`E`/`F`/`G`.
pub open spec fn discard_seat(c: char) -> int {
    if c == 'd' { 0 } else if c == 'e' { 1 } else if c == 'f' { 2 } else { 3 }
}

/// Message for a tag name the tag splitter does not accept.
pub open spec fn bad_tag_msg() -> Seq<char> {
    "unsupported tag name"@
}

/// Message for a seat attribute outside 0..=3 where a seat is indexed.
pub open spec fn bad_seat_msg() -> Seq<char> {
    "seat out of range"@
}

/// One start/empty tag.  Where the state machine would index a seat out of
/// range or split a tag at a non-character boundary the step fails.
pub open spec fn open_spec(g: GameView, pending: Option<(Seq<char>, i32)>, tag: Seq<char>, a: Seq<(Seq<char>, Seq<char>)>) -> (GameView, Option<(Seq<char>, i32)>, Flow) {
    if !tag_ok(tag) {
        (g, pending, Flow::Fail(bad_tag_msg()))
    } else {
        let (pfx, to) = split_tag_spec(tag);
        if pfx == 'g' && tag == "go"@ {
            (GameView { game_type: attr_i32(a, "type"@, 0), lobby: attr_i32(a, "lobby"@, 0), ..g }, pending, Flow::Go)
        } else if pfx == 'u' && tag == "un"@ {
            (un_spec(g, a), pending, Flow::Go)
        } else if pfx == 't' && tag == "taikyoku"@ {
            (GameView { oya: attr_i8(a, "oya"@, 0), ..g }, pending, Flow::Go)
        } else if pfx == 'i' && tag == "init"@ {
            (reset_spec(g, a), None, Flow::Go)
        } else if (pfx == 't' || pfx == 'u' || pfx == 'v' || pfx == 'w') && to.is_some() {
            (draw_spec(g, draw_seat(pfx), to.unwrap() as i32), pending, Flow::Go)
        } else if (pfx == 'd' || pfx == 'e' || pfx == 'f' || pfx == 'g') && to.is_some() {
            (discard_spec(g, pending, discard_seat(pfx), to.unwrap() as i32), None, Flow::Go)
        } else if pfx == 'n' {
            let who = attr_i8(a, "who"@, 0);
            if who < 0 || who > 3 {
                (g, pending, Flow::Fail(bad_seat_msg()))
            } else {
                let m = attr_int(a, "m"@, 0, false, 0, u32::MAX as int) as u32;
                let (g2, p2) = meld_spec(g, pending, who as int, m);
                (g2, p2, Flow::Go)
            }
        } else if pfx == 'r' && "reach"@.is_prefix_of(tag) {
            let who = attr_i8(a, "who"@, 0);
            let step = attr_i32(a, "step"@, 1);
            if step == 2 && (who < 0 || who > 3) {
                (g, pending, Flow::Fail(bad_seat_msg()))
            } else {
                (reach_spec(g, who, step, attr_get(a, "ten"@)), pending, Flow::Go)
            }
        } else if pfx == 'd' && tag == "dora"@ {
            (dora_spec(g, a), pending, Flow::Go)
        } else if pfx == 'a' && tag == "agari"@ {
            (agari_spec(g, a), pending, if attr_get(a, "owari"@).is_some() { Flow::Stop } else { Flow::Go })
        } else if pfx == 'r' && tag == "ryuukyoku"@ {
            (ryuukyoku_spec(g, a), pending, Flow::Go)
        } else {
            (g, pending, Flow::Go)
        }
    }
}

/// The rows, or the error message, of a parse.
pub open spec fn result_view(r: Result<Vec<Snapshot>, String>) -> Result<Seq<SnapView>, Seq<char>> {
    match r {
        Ok(rows) => Ok(snap_views(rows@)),
        Err(m) => Err(m@),
    }
}

/// One event.
pub open spec fn step_spec(g: GameView, pending: Option<(Seq<char>, i32)>, ev: XmlEvent) -> (GameView, Option<(Seq<char>, i32)>, Flow) {
    match ev {
        XmlEvent::Open { name, attrs } => open_spec(g, pending, name@, attr_views(attrs@)),
        XmlEvent::Close { name } => (g, pending, if name@ == "mjloggm"@ { Flow::Stop } else { Flow::Go }),
        XmlEvent::Eof => (g, pending, Flow::Stop),
        XmlEvent::Error { message } => (g, pending, Flow::Fail("XML parse error: "@ + message@)),
        XmlEvent::Other => (g, pending, Flow::Go),
    }
}

/// The rows produced from an event stream: events are processed until a stop
/// (end of input, closing `mjloggm`, or a final `AGARI` with `owari`), and an
/// error event or a failing step makes the whole result an error.
pub open spec fn run_spec(g: GameView, pending: Option<(Seq<char>, i32)>, evs: Seq<XmlEvent>) -> Result<Seq<SnapView>, Seq<char>>
    decreases evs.len(),
{
    if evs.len() == 0 {
        Ok(g.snapshots)
    } else {
        let (g2, p2, f) = step_spec(g, pending, evs[0]);
        match f {
            Flow::Go => run_spec(g2, p2, evs.drop_first()),
            Flow::Stop => Ok(g2.snapshots),
            Flow::Fail(m) => Err(m),
        }
    }
}

// ── helpers ───────────────────────────────────────────────────

/// Value of the attribute named `key` (the last one if it repeats).
fn get_attr(attrs: &Vec<(String, String)>, key: &[char]) -> (r: Option<Vec<char>>)
    ensures
        match r {
            Some(v) => attr_get(attr_views(attrs@), key@) == Some(v@),
            None => attr_get(attr_views(attrs@), key@).is_none(),
        },
{
    let ghost av = attr_views(attrs@);
    let mut i = attrs.len();
    assert(av.take(i as int) =~= av);
    while i > 0
        invariant
            0 <= i <= attrs.len(),
            av == attr_views(attrs@),
            attr_get(av, key@) == attr_get(av.take(i as int), key@),
        decreases i,
    {
        assert(av.take(i as int).drop_last() =~= av.take(i - 1));
        let k = chars_of(attrs[i - 1].0.as_str());
        if chars_eq(&k, key) {
            return Some(chars_of(attrs[i - 1].1.as_str()));
        }
        i = i - 1;
    }
    None
}

/// Integer attribute with a default.
fn attr_num(attrs: &Vec<(String, String)>, key: &str, d: i64, signed: bool, lo: i64, hi: i64) -> (r: i64)
    requires
        -0x1_0000_0000 <= lo <= hi <= 0x1_0000_0000,
        lo <= d <= hi,
    ensures
        r == attr_int(attr_views(attrs@), key@, d as int, signed, lo as int, hi as int),
        lo <= r <= hi,
{
    let k = chars_of(key);
    match get_attr(attrs, &k) {
        Some(v) => match parse_int(&v, signed, lo, hi) {
            Some(x) => x,
            None => d,
        },
        None => d,
    }
}

/// Tag initial (`'?'` for an empty tag) and the integer after it.
fn split_tag(tag: &Vec<char>) -> (r: (char, Option<i32>))
    requires
        tag_ok(tag@),
    ensures
        r.0 == split_tag_spec(tag@).0,
        match r.1 {
            Some(x) => split_tag_spec(tag@).1 == Some(x as int),
            None => split_tag_spec(tag@).1.is_none(),
        },
{
    if tag.len() < 2 {
        let c = if tag.len() == 0 { '?' } else { tag[0] };
        return (c, None);
    }
    let p = tag[0];
    let mut rest: Vec<char> = Vec::new();
    let mut i: usize = 1;
    while i < tag.len()
        invariant
            1 <= i <= tag.len(),
            rest@ == tag@.subrange(1, i as int),
        decreases tag.len() - i,
    {
        rest.push(tag[i]);
        i = i + 1;
        assert(rest@ =~= tag@.subrange(1, i as int));
    }
    assert(rest@ =~= tag@.drop_first());
    match parse_int(&rest, true, i32::MIN as i64, i32::MAX as i64) {
        Some(x) => (p, Some(x as i32)),
        None => (p, None),
    }
}

/// Tile kind: the id divided by four, rounded towards zero.
fn kind(x: i32) -> (r: i32)
    ensures
        r == kind_of(x),
{
    x / 4
}

/// Decodes a packed Tenhou meld into (type, guessed tiles, guessed called
/// tile, from seat, called position).
fn decode_meld(m: u32, who: i8) -> (r: (String, Vec<i32>, i32, i8, i8))
    requires
        0 <= who < 4,
    ensures
        r.0@ == decode_meld_spec(m, who).0,
        r.1@ == decode_meld_spec(m, who).1,
        r.2 == decode_meld_spec(m, who).2,
        r.3 == decode_meld_spec(m, who).3,
        r.4 == decode_meld_spec(m, who).4,
{
    if m & 0x0004 != 0 {
        let p0 = ((m >> 10u32) & 0x3F) as i32;
        assert(((m >> 10u32) & 0x3F) <= 0x3F) by (bit_vector);
        let r = p0 % 3;
        let p = p0 / 3;
        let s = p / 7;
        let n0 = p % 7;
        let mut ids: Vec<i32> = Vec::new();
        ids.push((s * 9 + n0) * 4);
        ids.push((s * 9 + n0 + 1) * 4);
        ids.push((s * 9 + n0 + 2) * 4);
        let c = ids[r as usize];
        let from = ((who as i32 + 3) % 4) as i8;
        ("chi".to_string(), ids, c, from, r as i8)
    } else if m & 0x0018 != 0 {
        let p0 = ((m >> 9u32) & 0x7F) as i32;
        assert(((m >> 9u32) & 0x7F) <= 0x7F) by (bit_vector);
        let r = p0 % 3;
        let p = p0 / 3;
        let s = p / 9;
        let n = p % 9;
        let tid = s * 9 + n;
        if m & 0x0010 != 0 {
            let mut ts: Vec<i32> = Vec::new();
            ts.push(tid * 4);
            ts.push(tid * 4 + 1);
            ts.push(tid * 4 + 2);
            ts.push(tid * 4 + 3);
            ("kakan".to_string(), ts, 0, -1, -1)
        } else {
            let mut ts: Vec<i32> = Vec::new();
            ts.push(tid * 4);
            ts.push(tid * 4 + 1);
            ts.push(tid * 4 + 2);
            let c = ts[r as usize];
            let f = ((who as i32 + 1 + r) % 4) as i8;
            ("pon".to_string(), ts, c, f, r as i8)
        }
    } else {
        let p = (((m >> 8u32) & 0xFF) as i32) / 4;
        assert(((m >> 8u32) & 0xFF) <= 0xFF) by (bit_vector);
        let s = p / 9;
        let n = p % 9;
        let tid = s * 9 + n;
        let mut ts: Vec<i32> = Vec::new();
        ts.push(tid * 4);
        ts.push(tid * 4 + 1);
        ts.push(tid * 4 + 2);
        ts.push(tid * 4 + 3);
        ("ankan".to_string(), ts, 0, -1, -1)
    }
}

/// The integers among the pieces.
fn parse_ints(pieces: &Vec<Vec<char>>) -> (r: Vec<i32>)
    ensures
        r@ == parsed_ints(views(pieces@)),
{
    let mut r: Vec<i32> = Vec::new();
    let mut i: usize = 0;
    while i < pieces.len()
        invariant
            0 <= i <= pieces.len(),
            r@ == parsed_ints(views(pieces@).take(i as int)),
        decreases pieces.len() - i,
    {
        assert(views(pieces@).take(i + 1).drop_last() =~= views(pieces@).take(i as int));
        assert(views(pieces@).take(i + 1).last() == pieces@[i as int]@);
        match parse_int(&pieces[i], true, i32::MIN as i64, i32::MAX as i64) {
            Some(x) => r.push(x as i32),
            None => {},
        }
        i = i + 1;
    }
    assert(views(pieces@).take(pieces.len() as int) =~= views(pieces@));
    r
}

/// Reads up to four scores from a comma-separated list.
fn update_scores(scores: &mut [i32; 4], s: &[char])
    ensures
        final(scores)@ == update_scores_full(old(scores)@, s@),
{
    let pieces = split_chars(s, ',');
    let ghost sc0 = scores@;
    let ghost ps = views(pieces@);
    let mut i: usize = 0;
    while i < 4 && i < pieces.len()
        invariant
            0 <= i <= 4,
            i <= pieces.len(),
            ps == views(pieces@),
            ps == split_spec(s@, ','),
            scores@ == update_scores_spec(sc0, ps, i as int),
        decreases 4 - i,
    {
        assert(ps[i as int] == pieces@[i as int]@);
        match parse_int(&pieces[i], true, i32::MIN as i64, i32::MAX as i64) {
            Some(x) => {
                scores[i] = x as i32;
            },
            None => {},
        }
        i = i + 1;
    }
    proof {
        lemma_update_scores_rest(sc0, ps, i as int);
    }
}

proof fn lemma_update_scores_rest(sc: Seq<i32>, ps: Seq<Seq<char>>, i: int)
    requires
        0 <= i <= 4,
        i == 4 || i >= ps.len(),
    ensures
        update_scores_spec(sc, ps, 4) == update_scores_spec(sc, ps, i),
    decreases 4 - i,
{
    if i < 4 {
        lemma_update_scores_rest(sc, ps, i + 1);
    }
}

/// Adds the settlement deltas of `sc="s0,d0,s1,d1,…"` (wrapping).
fn apply_sc(scores: &mut [i32; 4], s: &[char])
    ensures
        final(scores)@ == apply_sc_spec(old(scores)@, s@),
{
    let pieces = split_chars(s, ',');
    let vals = parse_ints(&pieces);
    let ghost sc0 = scores@;
    let mut i: usize = 0;
    while i < 4
        invariant
            0 <= i <= 4,
            vals@ == parsed_ints(split_spec(s@, ',')),
            forall|j: int| 0 <= j < i ==> scores@[j] == (if 2 * j + 1 < vals@.len() { sc0[j].wrapping_add(vals@[2 * j + 1]) } else { sc0[j] }),
            forall|j: int| i <= j < 4 ==> scores@[j] == sc0[j],
        decreases 4 - i,
    {
        let di = i * 2 + 1;
        if di < vals.len() {
            scores[i] = scores[i].wrapping_add(vals[di]);
        }
        i = i + 1;
    }
    assert(scores@ =~= apply_sc_spec(sc0, s@));
}

/// `std::slice::sort_unstable`: ascending order of the same tiles.
#[verifier::external_body]
pub(crate) fn sort_tiles(t: &mut Vec<i32>)
    ensures
        final(t)@ == sorted_tiles(old(t)@),
{
    t.sort_unstable();
}

proof fn lemma_remove_first_at(s: Seq<i32>, x: i32, p: int)
    requires
        0 <= p < s.len(),
        s[p] == x,
        forall|j: int| 0 <= j < p ==> s[j] != x,
    ensures
        remove_first(s, x) == s.remove(p),
    decreases p,
{
    if p > 0 {
        lemma_remove_first_at(s.drop_first(), x, p - 1);
        assert(seq![s[0]] + s.drop_first().remove(p - 1) =~= s.remove(p));
    } else {
        assert(s.drop_first() =~= s.remove(0));
    }
}

proof fn lemma_remove_first_absent(s: Seq<i32>, x: i32)
    requires
        forall|j: int| 0 <= j < s.len() ==> s[j] != x,
    ensures
        remove_first(s, x) == s,
    decreases s.len(),
{
    if s.len() > 0 {
        lemma_remove_first_absent(s.drop_first(), x);
        assert(seq![s[0]] + s.drop_first() =~= s);
    }
}

/// Removes the first occurrence of `x`, if any.
pub(crate) fn remove_first_of(h: &mut Vec<i32>, x: i32)
    ensures
        final(h)@ == remove_first(old(h)@, x),
{
    let mut p: usize = 0;
    while p < h.len() && h[p] != x
        invariant
            0 <= p <= h.len(),
            forall|j: int| 0 <= j < p ==> h@[j] != x,
        decreases h.len() - p,
    {
        p = p + 1;
    }
    if p < h.len() {
        proof {
            lemma_remove_first_at(h@, x, p as int);
        }
        h.remove(p);
    } else {
        proof {
            lemma_remove_first_absent(h@, x);
        }
    }
}

/// Every occurrence of `x` removed.
fn without_tile(h: &Vec<i32>, x: i32) -> (r: Vec<i32>)
    ensures
        r@ == without(h@, x),
{
    let mut r: Vec<i32> = Vec::new();
    let mut i: usize = 0;
    while i < h.len()
        invariant
            0 <= i <= h.len(),
            r@ == without(h@.take(i as int), x),
        decreases h.len() - i,
    {
        assert(h@.take(i + 1).drop_last() =~= h@.take(i as int));
        if h[i] != x {
            r.push(h[i]);
        }
        i = i + 1;
    }
    assert(h@.take(h.len() as int) =~= h@);
    r
}

/// Index of the first tile of kind `k`.
fn find_kind(h: &Vec<i32>, k: i32) -> (r: Option<usize>)
    ensures
        match r {
            Some(i) => first_of_kind(h@, k as int) == Some(i as int) && i < h.len(),
            None => first_of_kind(h@, k as int).is_none(),
        },
{
    let mut p: usize = 0;
    while p < h.len() && kind(h[p]) != k
        invariant
            0 <= p <= h.len(),
            forall|j: int| 0 <= j < p ==> kind_of(h@[j]) != k,
        decreases h.len() - p,
    {
        p = p + 1;
    }
    proof {
        lemma_first_of_kind(h@, k as int, p as int);
    }
    if p < h.len() {
        Some(p)
    } else {
        None
    }
}

proof fn lemma_first_of_kind(s: Seq<i32>, k: int, p: int)
    requires
        0 <= p <= s.len(),
        forall|j: int| 0 <= j < p ==> kind_of(s[j]) != k,
        p < s.len() ==> kind_of(s[p]) == k,
    ensures
        p < s.len() ==> first_of_kind(s, k) == Some(p),
        p == s.len() ==> first_of_kind(s, k).is_none(),
    decreases p,
{
    if p > 0 {
        lemma_first_of_kind(s.drop_first(), k, p - 1);
    }
}

/// Number of tiles of kind `k`.
fn count_kind_of(h: &Vec<i32>, k: i32) -> (r: usize)
    ensures
        r == count_of_kind(h@, k as int),
{
    let mut n: usize = 0;
    let mut i: usize = 0;
    while i < h.len()
        invariant
            0 <= i <= h.len(),
            n == count_of_kind(h@.take(i as int), k as int),
            n <= i,
        decreases h.len() - i,
    {
        assert(h@.take(i + 1).drop_last() =~= h@.take(i as int));
        if kind(h[i]) == k {
            n = n + 1;
        }
        i = i + 1;
    }
    assert(h@.take(h.len() as int) =~= h@);
    n
}

// ── snapshot emission ─────────────────────────────────────────

/// The snapshot of the current state for a decision of `actor`.
fn capture_snapshot(gs: &GameState, actor: i8, action_type: String, drawn_tile: i32, called_tile: i32, discard_tile: i32) -> (r: Snapshot)
    ensures
        r@ == capture_spec(gs@, actor, action_type@, drawn_tile, called_tile, discard_tile),
{
    let r = Snapshot {
        game_id: gs.game_id.clone(),
        seq: gs.seq,
        honba: gs.honba,
        oya: gs.oya,
        turns: gs.turns,
        actor,
        hand_before: [gs.hands[0].clone(), gs.hands[1].clone(), gs.hands[2].clone(), gs.hands[3].clone()],
        river_p0: gs.rivers[0].clone(),
        river_p1: gs.rivers[1].clone(),
        river_p2: gs.rivers[2].clone(),
        river_p3: gs.rivers[3].clone(),
        river_tsumo_p0: gs.river_tsumo[0].clone(),
        river_tsumo_p1: gs.river_tsumo[1].clone(),
        river_tsumo_p2: gs.river_tsumo[2].clone(),
        river_tsumo_p3: gs.river_tsumo[3].clone(),
        melds_p0: copy_melds(&gs.melds[0]),
        melds_p1: copy_melds(&gs.melds[1]),
        melds_p2: copy_melds(&gs.melds[2]),
        melds_p3: copy_melds(&gs.melds[3]),
        scores: gs.scores,
        riichi: gs.riichi,
        riichi_turn: gs.riichi_seq,
        riichi_tile: gs.riichi_tile,
        dora_indicators: gs.dora_indicators.clone(),
        wall_remaining: gs.wall_remaining,
        riichi_sticks: gs.riichi_sticks,
        action_type,
        drawn_tile,
        called_tile,
        discard_tile,
        round_end_kind: -1,
        round_winner: -1,
        round_point_delta: [0; 4],
        round_tenpai_count: -1,
        agari_han_ids: Vec::new(),
        agari_han: 0,
        agari_fu: 0,
        agari_points: 0,
        agari_from: -1,
        agari_ura_dora: Vec::new(),
        is_tsumogiri: false,
    };
    assert(r@.round_point_delta =~= seq![0i32, 0i32, 0i32, 0i32]);
    assert(r@.hand_before =~= gs@.hands);
    assert(r@.rivers =~= gs@.rivers);
    assert(r@.river_tsumo =~= gs@.river_tsumo);
    assert(r@.melds =~= gs@.melds);
    r
}

/// Appends a snapshot and advances the row number.
fn push_snapshot(gs: &mut GameState, snap: Snapshot)
    ensures
        final(gs)@ == push_snap(old(gs)@, snap@),
{
    let ghost g0 = gs@;
    gs.snapshots.push(snap);
    gs.seq = gs.seq.wrapping_add(1);
    assert(gs@.snapshots =~= g0.snapshots.push(snap@));
    assert(gs@ == push_snap(g0, snap@)) by {
        assert(gs@.hands =~= g0.hands);
        assert(gs@.rivers =~= g0.rivers);
        assert(gs@.river_tsumo =~= g0.river_tsumo);
        assert(gs@.river_seq =~= g0.river_seq);
        assert(gs@.melds =~= g0.melds);
        assert(gs@.names =~= g0.names);
        assert(gs@.sexes =~= g0.sexes);
    }
}

fn emit_discard_snap(gs: &mut GameState, actor: i8, tile: i32)
    ensures
        final(gs)@ == emit_discard_spec(old(gs)@, actor, tile),
{
    let at = if gs.pending_reach_player == actor {
        "reach".to_string()
    } else if gs.last_draw == tile {
        "tsumogiri".to_string()
    } else {
        "discard".to_string()
    };
    let mut snap = capture_snapshot(gs, actor, at, gs.last_draw, -1, tile);
    snap.is_tsumogiri = gs.last_draw == tile;
    push_snapshot(gs, snap);
}

fn emit_meld_discard_snap(gs: &mut GameState, actor: i8, tile: i32, meld_type: &String, called_tile: i32)
    ensures
        final(gs)@ == emit_meld_discard_spec(old(gs)@, actor, tile, meld_type@, called_tile),
{
    let snap = capture_snapshot(gs, actor, meld_type.clone(), called_tile, called_tile, tile);
    push_snapshot(gs, snap);
}

fn emit_kan_snap(gs: &mut GameState, actor: i8, kan_type: &String, kan_tile: i32)
    ensures
        final(gs)@ == emit_kan_spec(old(gs)@, actor, kan_type@, kan_tile),
{
    let (drawn_tile, called_tile, discard_tile) = if eq_lit(kan_type, "ankan") || eq_lit(kan_type, "kakan") {
        (gs.last_draw, -1, kan_tile)
    } else if eq_lit(kan_type, "daiminkan") || eq_lit(kan_type, "shominkan") {
        (kan_tile, kan_tile, -1)
    } else {
        (-1, -1, -1)
    };
    let snap = capture_snapshot(gs, actor, kan_type.clone(), drawn_tile, called_tile, discard_tile);
    push_snapshot(gs, snap);
}

// ── event handlers ────────────────────────────────────────────

/// Draw of `tile` by seat `p`.
fn draw(gs: &mut GameState, p: usize, tile: i32)
    requires
        p < 4,
    ensures
        final(gs)@ == draw_spec(old(gs)@, p as int, tile),
{
    let ghost g0 = gs@;
    if gs.next_draw_from_dead_wall {
        gs.next_draw_from_dead_wall = false;
    } else {
        gs.wall_remaining = gs.wall_remaining.wrapping_sub(1);
    }
    gs.last_draw = tile;
    gs.actor = p as i8;
    gs.hands[p].push(tile);
    sort_tiles(&mut gs.hands[p]);
    assert(gs@ == draw_spec(g0, p as int, tile)) by {
        assert(gs@.hands =~= g0.hands.update(p as int, sorted_tiles(g0.hands[p as int].push(tile))));
        assert(gs@.rivers =~= g0.rivers);
        assert(gs@.river_tsumo =~= g0.river_tsumo);
        assert(gs@.river_seq =~= g0.river_seq);
        assert(gs@.melds =~= g0.melds);
        assert(gs@.names =~= g0.names);
        assert(gs@.sexes =~= g0.sexes);
    }
}

/// The view of a pending call.
pub open spec fn pend_view(o: Option<(String, i32)>) -> Option<(Seq<char>, i32)> {
    match o {
        Some((mt, ct)) => Some((mt@, ct)),
        None => None,
    }
}

/// Discard of `tile` by seat `p`.
fn discard(gs: &mut GameState, pending: &mut Option<(String, i32)>, p: usize, tile: i32)
    requires
        p < 4,
        wf(old(gs)@),
    ensures
        final(gs)@ == discard_spec(old(gs)@, pend_view(*old(pending)), p as int, tile),
        final(pending).is_none(),
        wf(final(gs)@),
{
    let ghost g0 = gs@;
    let ghost pv = pend_view(*pending);
    let is_reach = gs.pending_reach_player == p as i8;
    if is_reach {
        gs.riichi[p] = true;
        gs.riichi_seq[p] = gs.seq;
        gs.riichi_tile[p] = tile;
    }
    let ghost g1 = gs@;
    assert(g1 == (if is_reach {
        GameView {
            riichi: g0.riichi.update(p as int, true),
            riichi_seq: g0.riichi_seq.update(p as int, g0.seq),
            riichi_tile: g0.riichi_tile.update(p as int, tile),
            ..g0
        }
    } else {
        g0
    })) by {
        assert(gs@.hands =~= g0.hands);
        assert(gs@.rivers =~= g0.rivers);
        assert(gs@.river_tsumo =~= g0.river_tsumo);
        assert(gs@.river_seq =~= g0.river_seq);
        assert(gs@.melds =~= g0.melds);
        assert(gs@.names =~= g0.names);
        assert(gs@.sexes =~= g0.sexes);
        if is_reach {
            assert(gs@.riichi =~= g0.riichi.update(p as int, true));
            assert(gs@.riichi_seq =~= g0.riichi_seq.update(p as int, g0.seq));
            assert(gs@.riichi_tile =~= g0.riichi_tile.update(p as int, tile));
        }
    }
    match pending.take() {
        Some((mt, ct)) => emit_meld_discard_snap(gs, p as i8, tile, &mt, ct),
        None => emit_discard_snap(gs, p as i8, tile),
    }
    if is_reach {
        gs.pending_reach_player = -1;
    }
    let ghost g3 = gs@;
    let h = without_tile(&gs.hands[p], tile);
    gs.hands[p] = h;
    gs.rivers[p].push(tile);
    let ts = gs.last_draw == tile;
    gs.river_tsumo[p].push(ts);
    let sq = gs.seq;
    gs.river_seq[p].push(sq);
    gs.turns[p] = gs.turns[p].wrapping_add(1);
    gs.last_draw = -1;
    assert(gs@ == discard_spec(g0, pv, p as int, tile)) by {
        assert(gs@.hands =~= g3.hands.update(p as int, without(g3.hands[p as int], tile)));
        assert(gs@.rivers =~= g3.rivers.update(p as int, g3.rivers[p as int].push(tile)));
        assert(gs@.river_tsumo =~= g3.river_tsumo.update(p as int, g3.river_tsumo[p as int].push(g3.last_draw == tile)));
        assert(gs@.river_seq =~= g3.river_seq.update(p as int, g3.river_seq[p as int].push(g3.seq)));
        assert(gs@.turns =~= g3.turns.update(p as int, g3.turns[p as int].wrapping_add(1)));
        assert(gs@.melds =~= g3.melds);
        assert(gs@.names =~= g3.names);
        assert(gs@.sexes =~= g3.sexes);
    }
}

proof fn lemma_resolve_len(tiles: Seq<i32>, n: int, guess: i32, called: i32, hand: Seq<i32>)
    requires
        0 <= n <= tiles.len(),
    ensures
        resolve_tiles(tiles, n, guess, called, hand).0.len() == n,
    decreases n,
{
    if n > 0 {
        lemma_resolve_len(tiles, n - 1, guess, called, hand);
    }
}

proof fn lemma_sorted_len(s: Seq<i32>)
    ensures
        sorted_tiles(s).len() == s.len(),
{
    assert(vstd::relations::total_ordering(tile_le()));
    s.lemma_sort_by_ensures(tile_le());
    vstd::seq_lib::to_multiset_len(s);
    vstd::seq_lib::to_multiset_len(sorted_tiles(s));
}

proof fn lemma_decode_shape(m: u32, who: i8)
    ensures
        decode_meld_spec(m, who).1.len() == 3 || decode_meld_spec(m, who).1.len() == 4,
        decode_meld_spec(m, who).0 == "ankan"@ || decode_meld_spec(m, who).0 == "kakan"@
            ==> decode_meld_spec(m, who).1.len() == 4,
{
    reveal_strlit("chi");
    reveal_strlit("pon");
    reveal_strlit("ankan");
    reveal_strlit("kakan");
    assert("chi"@.len() == 3 && "pon"@.len() == 3);
    assert("ankan"@.len() == 5 && "kakan"@.len() == 5);
}

/// The most recent discard of kind `k` in the rivers of the seats other than
/// `who`, improving on `acc = (tile, seat, row)`.
fn scan_calls(gs: &GameState, who: usize, k: i32, acc: (i32, i8, i32)) -> (r: (i32, i8, i32))
    requires
        who < 4,
        wf(gs@),
    ensures
        r == scan_seats(gs@, who as int, k as int, acc, 4),
{
    let mut best = acc;
    let mut fp: usize = 0;
    while fp < 4
        invariant
            0 <= fp <= 4,
            who < 4,
            wf(gs@),
            best == scan_seats(gs@, who as int, k as int, acc, fp as int),
        decreases 4 - fp,
    {
        if fp != who {
            let ghost b0 = best;
            let ghost r = gs@.rivers[fp as int];
            let ghost rs = gs@.river_seq[fp as int];
            assert(gs.rivers[fp as int]@ == r);
            assert(gs.river_seq[fp as int]@ == rs);
            let mut pos: usize = 0;
            while pos < gs.rivers[fp].len()
                invariant
                    0 <= fp < 4,
                    0 <= pos <= r.len(),
                    r == gs.rivers[fp as int]@,
                    rs == gs.river_seq[fp as int]@,
                    r.len() == rs.len(),
                    best == scan_river(r, rs, fp as int, k as int, b0, pos as int),
                decreases r.len() - pos,
            {
                let t = gs.rivers[fp][pos];
                let sq = gs.river_seq[fp][pos];
                if kind(t) == k && sq > best.2 {
                    best = (t, fp as i8, sq);
                }
                pos = pos + 1;
            }
        }
        fp = fp + 1;
    }
    best
}

/// The guessed meld tiles made concrete (see [`resolve_tiles`]).
fn resolve(tiles: &Vec<i32>, guess: i32, called: i32, hand: &Vec<i32>) -> (r: Vec<i32>)
    ensures
        r@ == resolve_tiles(tiles@, tiles@.len() as int, guess, called, hand@).0,
        r@.len() == tiles@.len(),
{
    let mut out: Vec<i32> = Vec::new();
    let mut hc = hand.clone();
    assert(hc@ =~= hand@);
    let mut i: usize = 0;
    while i < tiles.len()
        invariant
            0 <= i <= tiles.len(),
            (out@, hc@) == resolve_tiles(tiles@, i as int, guess, called, hand@),
            out@.len() == i,
        decreases tiles.len() - i,
    {
        let t = tiles[i];
        if t == guess {
            out.push(called);
        } else {
            match find_kind(&hc, kind(t)) {
                Some(p) => {
                    let x = hc.remove(p);
                    out.push(x);
                },
                None => {
                    out.push(t);
                },
            }
        }
        i = i + 1;
    }
    out
}

/// Removes the meld's tiles from the hand (see [`remove_meld_spec`]).
fn remove_meld_tiles(h: &mut Vec<i32>, mt: &String, tiles: &Vec<i32>, called: i32)
    requires
        mt@ == "kakan"@ ==> tiles@.len() >= 1,
    ensures
        final(h)@ == remove_meld_spec(old(h)@, mt@, tiles@, called),
{
    let ghost h0 = h@;
    if eq_lit(mt, "chi") || eq_lit(mt, "pon") || eq_lit(mt, "daiminkan") || eq_lit(mt, "shominkan") {
        let mut i: usize = 0;
        while i < tiles.len()
            invariant
                0 <= i <= tiles.len(),
                h@ == remove_except(h0, tiles@, called, i as int),
            decreases tiles.len() - i,
        {
            if tiles[i] != called {
                remove_first_of(h, tiles[i]);
            }
            i = i + 1;
        }
    } else if eq_lit(mt, "kakan") {
        remove_first_of(h, tiles[0]);
    } else {
        let mut i: usize = 0;
        while i < tiles.len()
            invariant
                0 <= i <= tiles.len(),
                h@ == remove_all(h0, tiles@, i as int),
            decreases tiles.len() - i,
        {
            remove_first_of(h, tiles[i]);
            i = i + 1;
        }
    }
}

/// A kan: one tile fewer in the live wall, the next draw from the dead wall.
fn kan_prepare(gs: &mut GameState)
    ensures
        final(gs)@ == kan_prep(old(gs)@),
{
    let ghost g0 = gs@;
    gs.wall_remaining = gs.wall_remaining.wrapping_sub(1);
    gs.next_draw_from_dead_wall = true;
    assert(gs@ == kan_prep(g0)) by {
        assert(gs@.hands =~= g0.hands);
        assert(gs@.rivers =~= g0.rivers);
        assert(gs@.river_tsumo =~= g0.river_tsumo);
        assert(gs@.river_seq =~= g0.river_seq);
        assert(gs@.melds =~= g0.melds);
        assert(gs@.names =~= g0.names);
        assert(gs@.sexes =~= g0.sexes);
    }
}

/// A call (tag `N`) by seat `who` of the packed meld `m`.
fn meld(gs: &mut GameState, pending: &mut Option<(String, i32)>, who: usize, m: u32)
    requires
        who < 4,
        wf(old(gs)@),
    ensures
        (final(gs)@, pend_view(*final(pending))) == meld_spec(old(gs)@, pend_view(*old(pending)), who as int, m),
        wf(final(gs)@),
{
    let ghost g0 = gs@;
    let ghost pv = pend_view(*pending);
    let ghost d = decode_meld_spec(m, who as i8);
    proof {
        lemma_decode_shape(m, who as i8);
    }
    let (tp, tiles0, guess, from_guess, called_pos) = decode_meld(m, who as i8);
    let (called, from, _best) = if from_guess >= 0 {
        scan_calls(gs, who, kind(guess), (guess, from_guess, -1))
    } else {
        (guess, from_guess, -1)
    };
    let tiles1 = resolve(&tiles0, guess, called, &gs.hands[who]);
    let ghost h0 = g0.hands[who as int];
    assert(gs.hands[who as int]@ == h0);
    let n = count_kind_of(&gs.hands[who], kind(called));
    let mt = if eq_lit(&tp, "pon") && n >= 3 {
        "daiminkan".to_string()
    } else {
        tp
    };
    proof {
        reveal_strlit("daiminkan");
        reveal_strlit("kakan");
        assert("daiminkan"@.len() == 9 && "kakan"@.len() == 5);
    }
    let mut hand = gs.hands[who].clone();
    assert(hand@ =~= h0);
    remove_meld_tiles(&mut hand, &mt, &tiles1, called);
    let mut tiles2 = tiles1.clone();
    assert(tiles2@ =~= tiles1@);
    sort_tiles(&mut tiles2);
    proof {
        lemma_sorted_len(tiles1@);
    }
    let discard_n = gs.turns[who];
    let entry = MeldEntry {
        meld_type: mt.clone(),
        tiles: tiles2.clone(),
        called_tile: called,
        from_player: from,
        discard_n,
        called_pos,
    };
    assert(entry@.tiles =~= tiles2@);
    gs.melds[who].push(entry);
    gs.actor = who as i8;
    if called > 0 {
        gs.last_draw = called;
    }
    let ghost g1 = gs@;
    assert(g1 == GameView {
        melds: g0.melds.update(who as int, g0.melds[who as int].push(entry@)),
        actor: who as i8,
        last_draw: if called > 0 { called } else { g0.last_draw },
        ..g0
    }) by {
        assert(gs@.hands =~= g0.hands);
        assert(meld_views(gs.melds[who as int]@) =~= g0.melds[who as int].push(entry@));
        assert(gs@.melds =~= g0.melds.update(who as int, g0.melds[who as int].push(entry@)));
        assert(gs@.rivers =~= g0.rivers);
        assert(gs@.river_tsumo =~= g0.river_tsumo);
        assert(gs@.river_seq =~= g0.river_seq);
        assert(gs@.names =~= g0.names);
        assert(gs@.sexes =~= g0.sexes);
    }
    if eq_lit(&mt, "chi") || eq_lit(&mt, "pon") {
        *pending = Some((mt, called));
    } else if eq_lit(&mt, "daiminkan") || eq_lit(&mt, "shominkan") {
        kan_prepare(gs);
        emit_kan_snap(gs, who as i8, &mt, called);
    } else if eq_lit(&mt, "ankan") {
        kan_prepare(gs);
        emit_kan_snap(gs, who as i8, &mt, tiles2[0]);
    } else if eq_lit(&mt, "kakan") {
        kan_prepare(gs);
        emit_kan_snap(gs, who as i8, &mt, tiles2[3]);
    }
    let ghost g2 = gs@;
    gs.hands[who] = hand;
    proof {
        assert(gs@.hands =~= g2.hands.update(who as int, hand@));
        assert(gs@ == GameView { hands: g0.hands.update(who as int, hand@), ..g2 });
    }
}

/// Value of the attribute named by a literal.
fn attr(attrs: &Vec<(String, String)>, key: &str) -> (r: Option<Vec<char>>)
    ensures
        match r {
            Some(v) => attr_get(attr_views(attrs@), key@) == Some(v@),
            None => attr_get(attr_views(attrs@), key@).is_none(),
        },
{
    let k = chars_of(key);
    get_attr(attrs, &k)
}

/// The attribute name `prefix` followed by the seat digit.
fn seat_key_of(prefix: &str, i: usize) -> (r: Vec<char>)
    requires
        i < 4,
    ensures
        r@ == seat_key(prefix@, i as int),
{
    let mut k = chars_of(prefix);
    let c = if i == 0 {
        '0'
    } else if i == 1 {
        '1'
    } else if i == 2 {
        '2'
    } else {
        '3'
    };
    assert(c == ('0' as int + i) as char);
    k.push(c);
    k
}

/// Whether the characters start with the literal.
fn starts_with_lit(v: &Vec<char>, lit: &str) -> (r: bool)
    ensures
        r == lit@.is_prefix_of(v@),
{
    let l = chars_of(lit);
    if l.len() > v.len() {
        return false;
    }
    let mut i: usize = 0;
    while i < l.len()
        invariant
            0 <= i <= l.len(),
            l.len() <= v.len(),
            l@ == lit@,
            forall|j: int| 0 <= j < i ==> l@[j] == v@[j],
        decreases l.len() - i,
    {
        if l[i] != v[i] {
            assert(l@[i as int] != v@.subrange(0, l@.len() as int)[i as int]);
            return false;
        }
        i = i + 1;
    }
    assert(l@ =~= v@.subrange(0, l@.len() as int));
    true
}

/// Game type and lobby (`GO`).
fn go_tag(gs: &mut GameState, attrs: &Vec<(String, String)>)
    ensures
        final(gs)@ == (GameView {
            game_type: attr_i32(attr_views(attrs@), "type"@, 0),
            lobby: attr_i32(attr_views(attrs@), "lobby"@, 0),
            ..old(gs)@
        }),
{
    let ghost g0 = gs@;
    gs.game_type = attr_num(attrs, "type", 0, true, i32::MIN as i64, i32::MAX as i64) as i32;
    gs.lobby = attr_num(attrs, "lobby", 0, true, i32::MIN as i64, i32::MAX as i64) as i32;
    proof {
        lemma_same_lists(g0, gs@);
    }
}

/// Dealer of the first round (`TAIKYOKU`).
fn taikyoku_tag(gs: &mut GameState, attrs: &Vec<(String, String)>)
    ensures
        final(gs)@ == (GameView { oya: attr_i8(attr_views(attrs@), "oya"@, 0), ..old(gs)@ }),
{
    let ghost g0 = gs@;
    gs.oya = attr_num(attrs, "oya", 0, true, i8::MIN as i64, i8::MAX as i64) as i8;
    proof {
        lemma_same_lists(g0, gs@);
    }
}

/// Two views whose board lists agree element by element are equal in those
/// fields (the sequences are rebuilt from the arrays).
proof fn lemma_same_board(g0: GameView, g1: GameView)
    requires
        g1.hands.len() == g0.hands.len(),
        forall|i: int| 0 <= i < g0.hands.len() ==> g1.hands[i] == g0.hands[i],
        g1.rivers.len() == g0.rivers.len(),
        forall|i: int| 0 <= i < g0.rivers.len() ==> g1.rivers[i] == g0.rivers[i],
        g1.river_tsumo.len() == g0.river_tsumo.len(),
        forall|i: int| 0 <= i < g0.river_tsumo.len() ==> g1.river_tsumo[i] == g0.river_tsumo[i],
        g1.river_seq.len() == g0.river_seq.len(),
        forall|i: int| 0 <= i < g0.river_seq.len() ==> g1.river_seq[i] == g0.river_seq[i],
        g1.melds.len() == g0.melds.len(),
        forall|i: int| 0 <= i < g0.melds.len() ==> g1.melds[i] == g0.melds[i],
    ensures
        g1.hands == g0.hands,
        g1.rivers == g0.rivers,
        g1.river_tsumo == g0.river_tsumo,
        g1.river_seq == g0.river_seq,
        g1.melds == g0.melds,
{
    assert(g1.hands =~= g0.hands);
    assert(g1.rivers =~= g0.rivers);
    assert(g1.river_tsumo =~= g0.river_tsumo);
    assert(g1.river_seq =~= g0.river_seq);
    assert(g1.melds =~= g0.melds);
}

/// The same for the board and the player lists.
proof fn lemma_same_lists(g0: GameView, g1: GameView)
    requires
        g1.hands.len() == g0.hands.len(),
        forall|i: int| 0 <= i < g0.hands.len() ==> g1.hands[i] == g0.hands[i],
        g1.rivers.len() == g0.rivers.len(),
        forall|i: int| 0 <= i < g0.rivers.len() ==> g1.rivers[i] == g0.rivers[i],
        g1.river_tsumo.len() == g0.river_tsumo.len(),
        forall|i: int| 0 <= i < g0.river_tsumo.len() ==> g1.river_tsumo[i] == g0.river_tsumo[i],
        g1.river_seq.len() == g0.river_seq.len(),
        forall|i: int| 0 <= i < g0.river_seq.len() ==> g1.river_seq[i] == g0.river_seq[i],
        g1.melds.len() == g0.melds.len(),
        forall|i: int| 0 <= i < g0.melds.len() ==> g1.melds[i] == g0.melds[i],
        g1.names.len() == g0.names.len(),
        forall|i: int| 0 <= i < g0.names.len() ==> g1.names[i] == g0.names[i],
        g1.sexes.len() == g0.sexes.len(),
        forall|i: int| 0 <= i < g0.sexes.len() ==> g1.sexes[i] == g0.sexes[i],
    ensures
        g1.hands == g0.hands,
        g1.rivers == g0.rivers,
        g1.river_tsumo == g0.river_tsumo,
        g1.river_seq == g0.river_seq,
        g1.melds == g0.melds,
        g1.names == g0.names,
        g1.sexes == g0.sexes,
{
    lemma_same_board(g0, g1);
    assert(g1.names =~= g0.names);
    assert(g1.sexes =~= g0.sexes);
}

/// A new dora indicator (`DORA`).
fn dora(gs: &mut GameState, attrs: &Vec<(String, String)>)
    ensures
        final(gs)@ == dora_spec(old(gs)@, attr_views(attrs@)),
{
    let ghost g0 = gs@;
    match attr(attrs, "hai") {
        Some(h) => match parse_int(&h, true, i32::MIN as i64, i32::MAX as i64) {
            Some(t) => {
                gs.dora_indicators.push(t as i32);
            },
            None => {},
        },
        None => {},
    }
    proof {
        lemma_same_lists(g0, gs@);
    }
}

/// Riichi declaration (`REACH`).
fn reach(gs: &mut GameState, attrs: &Vec<(String, String)>) -> (ok: bool)
    ensures
        ok == !(attr_i32(attr_views(attrs@), "step"@, 1) == 2 && (attr_i8(attr_views(attrs@), "who"@, 0) < 0
            || attr_i8(attr_views(attrs@), "who"@, 0) > 3)),
        ok ==> final(gs)@ == reach_spec(old(gs)@, attr_i8(attr_views(attrs@), "who"@, 0),
            attr_i32(attr_views(attrs@), "step"@, 1), attr_get(attr_views(attrs@), "ten"@)),
        !ok ==> final(gs)@ == old(gs)@,
{
    let ghost g0 = gs@;
    let who = attr_num(attrs, "who", 0, true, i8::MIN as i64, i8::MAX as i64) as i8;
    let step = attr_num(attrs, "step", 1, true, i32::MIN as i64, i32::MAX as i64) as i32;
    if step == 1 {
        gs.pending_reach_player = who;
    } else if step == 2 {
        if who < 0 || who > 3 {
            return false;
        }
        let w = who as usize;
        gs.scores[w] = gs.scores[w].wrapping_sub(10);
        gs.riichi_sticks = gs.riichi_sticks.wrapping_add(1);
        match attr(attrs, "ten") {
            Some(t) => update_scores(&mut gs.scores, &t),
            None => {},
        }
    }
    proof {
        lemma_same_lists(g0, gs@);
    }
    true
}

/// Players (`UN`): names, ranks, sexes and the player count.
fn players(gs: &mut GameState, attrs: &Vec<(String, String)>)
    ensures
        final(gs)@ == un_spec(old(gs)@, attr_views(attrs@)),
{
    let ghost g0 = gs@;
    let ghost a = attr_views(attrs@);
    let mut names = [String::new(), String::new(), String::new(), String::new()];
    let mut i: usize = 0;
    while i < 4
        invariant
            0 <= i <= 4,
            a == attr_views(attrs@),
            forall|j: int| 0 <= j < i ==> #[trigger] names[j]@ == seat_name(a, j),
        decreases 4 - i,
    {
        let k = seat_key_of("n", i);
        let v = match get_attr(attrs, &k) {
            Some(v) => string_of(&v),
            None => String::new(),
        };
        names[i] = v;
        i = i + 1;
    }
    let mut dans = gs.dans;
    match attr(attrs, "dan") {
        Some(d) => {
            let ps = split_chars(&d, ',');
            let ghost pv = split_spec(d@, ',');
            let mut i: usize = 0;
            while i < 4 && i < ps.len()
                invariant
                    0 <= i <= 4,
                    i <= ps.len(),
                    views(ps@) == pv,
                    pv == split_spec(d@, ','),
                    g0.dans.len() == 4,
                    forall|j: int| 0 <= j < i ==> #[trigger] dans@[j] == dans_spec(g0.dans, d@)[j],
                    forall|j: int| i <= j < 4 ==> #[trigger] dans@[j] == g0.dans[j],
                decreases 4 - i,
            {
                assert(pv[i as int] == ps@[i as int]@);
                let x = match parse_int(&ps[i], true, i32::MIN as i64, i32::MAX as i64) {
                    Some(x) => x as i32,
                    None => 0,
                };
                dans[i] = x;
                i = i + 1;
            }
            assert(dans@ =~= dans_spec(g0.dans, d@));
        },
        None => {},
    }
    let mut sexes = [gs.sexes[0].clone(), gs.sexes[1].clone(), gs.sexes[2].clone(), gs.sexes[3].clone()];
    assert(sexes@.map_values(|x: String| x@) =~= g0.sexes);
    match attr(attrs, "sx") {
        Some(x) => {
            let ps = split_chars(&x, ',');
            let ghost pv = split_spec(x@, ',');
            let mut i: usize = 0;
            while i < 4 && i < ps.len()
                invariant
                    0 <= i <= 4,
                    i <= ps.len(),
                    views(ps@) == pv,
                    pv == split_spec(x@, ','),
                    g0.sexes.len() == 4,
                    forall|j: int| 0 <= j < i ==> #[trigger] sexes[j]@ == sexes_spec(g0.sexes, x@)[j],
                    forall|j: int| i <= j < 4 ==> #[trigger] sexes[j]@ == g0.sexes[j],
                decreases 4 - i,
            {
                assert(pv[i as int] == ps@[i as int]@);
                sexes[i] = string_of(&ps[i]);
                i = i + 1;
            }
        },
        None => {},
    }
    let np: i32 = if dans[3] == 0 && names[3].as_str().is_empty() { 3 } else { 4 };
    gs.names = names;
    gs.dans = dans;
    gs.sexes = sexes;
    gs.num_players = np;
    proof {
        let gu = un_spec(g0, a);
        assert(gs@.names =~= gu.names);
        assert(gs@.dans =~= gu.dans);
        assert(gs@.sexes =~= gu.sexes);
        lemma_same_board(g0, gs@);
    }
}

/// The field parsed as an `i32`, 0 when it does not parse.
fn parse_or_zero(v: &Vec<char>) -> (r: i32)
    ensures
        r == (match parse_i32(v@) {
            Some(x) => x as i32,
            None => 0i32,
        }),
{
    match parse_int(v, true, i32::MIN as i64, i32::MAX as i64) {
        Some(x) => x as i32,
        None => 0,
    }
}

/// Start of a round (`INIT`).
fn reset_round(gs: &mut GameState, attrs: &Vec<(String, String)>)
    requires
        wf(old(gs)@),
    ensures
        final(gs)@ == reset_spec(old(gs)@, attr_views(attrs@)),
        wf(final(gs)@),
{
    let ghost g0 = gs@;
    let ghost a = attr_views(attrs@);
    gs.rivers = [Vec::new(), Vec::new(), Vec::new(), Vec::new()];
    gs.river_tsumo = [Vec::new(), Vec::new(), Vec::new(), Vec::new()];
    gs.river_seq = [Vec::new(), Vec::new(), Vec::new(), Vec::new()];
    gs.melds = [Vec::new(), Vec::new(), Vec::new(), Vec::new()];
    gs.riichi = [false; 4];
    gs.riichi_seq = [-1; 4];
    gs.riichi_tile = [-1; 4];
    gs.dora_indicators = Vec::new();
    gs.last_draw = -1;
    gs.wall_remaining = 70;
    gs.next_draw_from_dead_wall = false;
    gs.turns = [0; 4];
    gs.pending_reach_player = -1;
    gs.round_start_idx = gs.snapshots.len();
    match attr(attrs, "seed") {
        Some(sd) => {
            let p = split_chars(&sd, ',');
            if p.len() >= 6 {
                assert(views(p@)[1] == p@[1]@ && views(p@)[2] == p@[2]@ && views(p@)[5] == p@[5]@);
                gs.honba = parse_or_zero(&p[1]);
                gs.riichi_sticks = parse_or_zero(&p[2]);
                let d = parse_or_zero(&p[5]);
                gs.dora_indicators.push(d);
            }
        },
        None => {},
    }
    match attr(attrs, "ten") {
        Some(t) => update_scores(&mut gs.scores, &t),
        None => {},
    }
    gs.oya = attr_num(attrs, "oya", 0, true, i8::MIN as i64, i8::MAX as i64) as i8;
    gs.round_start_scores = gs.scores;
    let mut hands: [Vec<i32>; 4] = [Vec::new(), Vec::new(), Vec::new(), Vec::new()];
    let mut i: usize = 0;
    while i < 4
        invariant
            0 <= i <= 4,
            a == attr_views(attrs@),
            forall|j: int| 0 <= j < i ==> #[trigger] hands[j]@ == dealt_hand(a, j),
            forall|j: int| i <= j < 4 ==> #[trigger] hands[j]@ == Seq::<i32>::empty(),
        decreases 4 - i,
    {
        let k = seat_key_of("hai", i);
        match get_attr(attrs, &k) {
            Some(h) => {
                if h.len() > 0 {
                    let ps = split_chars(&h, ',');
                    let mut v = parse_ints(&ps);
                    sort_tiles(&mut v);
                    hands[i] = v;
                }
            },
            None => {},
        }
        i = i + 1;
    }
    gs.hands = hands;
    proof {
        let gr = reset_spec(g0, a);
        assert(gs@.hands =~= gr.hands);
        assert(gs@.rivers =~= gr.rivers);
        assert(gs@.river_tsumo =~= gr.river_tsumo);
        assert(gs@.river_seq =~= gr.river_seq);
        assert(meld_views(Seq::<MeldEntry>::empty()) =~= Seq::<MeldView>::empty());
        assert(gs@.melds =~= gr.melds);
        assert(gs@.riichi =~= gr.riichi);
        assert(gs@.riichi_seq =~= gr.riichi_seq);
        assert(gs@.riichi_tile =~= gr.riichi_tile);
        assert(gs@.turns =~= gr.turns);
        assert(gs@.dora_indicators =~= gr.dora_indicators);
        assert(gs@.names =~= gr.names);
        assert(gs@.sexes =~= gr.sexes);
        assert(gs@ == gr);
    }
}

/// The score change from the scores `sc` to the final ones (wrapping).
fn deltas(fin: &[i32; 4], sc: &[i32; 4]) -> (r: [i32; 4])
    ensures
        r@ == delta_spec(fin@, sc@),
{
    let r = [fin[0].wrapping_sub(sc[0]), fin[1].wrapping_sub(sc[1]), fin[2].wrapping_sub(sc[2]), fin[3].wrapping_sub(sc[3])];
    assert(r@ =~= delta_spec(fin@, sc@));
    r
}

/// Writes the outcome of a won round into a row.
fn mark_win(s: &mut Snapshot, end_kind: i8, who: i8, fin: &[i32; 4], base: &[i32; 4])
    ensures
        final(s)@ == win_mark(old(s)@, end_kind, who, fin@, base@),
{
    let ghost s0 = s@;
    s.round_end_kind = end_kind;
    s.round_winner = who;
    s.round_tenpai_count = -1;
    let d = deltas(fin, base);
    s.round_point_delta = d;
    assert(s@.hand_before =~= s0.hand_before);
    assert(s@.rivers =~= s0.rivers);
    assert(s@.river_tsumo =~= s0.river_tsumo);
    assert(s@.melds =~= s0.melds);
}

/// Writes the outcome of a drawn round into a row.
fn mark_draw(s: &mut Snapshot, count: i8, riichi: &[bool; 4], fin: &[i32; 4], base: &[i32; 4])
    ensures
        final(s)@ == draw_mark(old(s)@, count, riichi@, fin@, base@),
{
    let ghost s0 = s@;
    s.round_end_kind = 0;
    s.round_winner = -1;
    s.round_tenpai_count = count;
    s.riichi = *riichi;
    let d = deltas(fin, base);
    s.round_point_delta = d;
    assert(s@.hand_before =~= s0.hand_before);
    assert(s@.rivers =~= s0.rivers);
    assert(s@.river_tsumo =~= s0.river_tsumo);
    assert(s@.melds =~= s0.melds);
}

/// Marks the rows `start..end` as belonging to a round won by `who`.
fn mark_rows_win(rows: &mut Vec<Snapshot>, start: usize, end: usize, end_kind: i8, who: i8, fin: &[i32; 4], base: &[i32; 4])
    requires
        start <= end <= old(rows).len(),
    ensures
        snap_views(final(rows)@) == Seq::new(old(rows)@.len(), |j: int| if start <= j < end {
            win_mark(snap_views(old(rows)@)[j], end_kind, who, fin@, base@)
        } else {
            snap_views(old(rows)@)[j]
        }),
{
    let ghost r0 = snap_views(rows@);
    let mut j: usize = start;
    while j < end
        invariant
            start <= j <= end,
            end <= rows.len(),
            rows@.len() == r0.len(),
            forall|k: int| 0 <= k < r0.len() ==> #[trigger] rows@[k]@ == (if start <= k < j {
                win_mark(r0[k], end_kind, who, fin@, base@)
            } else {
                r0[k]
            }),
        decreases end - j,
    {
        mark_win(&mut rows[j], end_kind, who, fin, base);
        j = j + 1;
    }
    assert(snap_views(rows@) =~= Seq::new(r0.len(), |k: int| if start <= k < end {
        win_mark(r0[k], end_kind, who, fin@, base@)
    } else {
        r0[k]
    }));
}

/// Marks the rows from `start` on as belonging to a drawn round.
fn mark_rows_draw(rows: &mut Vec<Snapshot>, start: usize, count: i8, riichi: &[bool; 4], fin: &[i32; 4], base: &[i32; 4])
    requires
        start <= old(rows).len(),
    ensures
        snap_views(final(rows)@) == Seq::new(old(rows)@.len(), |j: int| if start <= j {
            draw_mark(snap_views(old(rows)@)[j], count, riichi@, fin@, base@)
        } else {
            snap_views(old(rows)@)[j]
        }),
{
    let ghost r0 = snap_views(rows@);
    let mut j: usize = start;
    while j < rows.len()
        invariant
            start <= j <= rows.len(),
            rows@.len() == r0.len(),
            forall|k: int| 0 <= k < r0.len() ==> #[trigger] rows@[k]@ == (if start <= k < j {
                draw_mark(r0[k], count, riichi@, fin@, base@)
            } else {
                r0[k]
            }),
        decreases rows.len() - j,
    {
        mark_draw(&mut rows[j], count, riichi, fin, base);
        j = j + 1;
    }
    assert(snap_views(rows@) =~= Seq::new(r0.len(), |k: int| if start <= k {
        draw_mark(r0[k], count, riichi@, fin@, base@)
    } else {
        r0[k]
    }));
}

/// Yaku ids and the han total (see [`yaku_spec`]).
fn yaku(vals: &Vec<i32>) -> (r: (Vec<i32>, i32))
    ensures
        (r.0@, r.1) == yaku_spec(vals@, 0, Seq::empty(), 0i32),
{
    let mut ids: Vec<i32> = Vec::new();
    let mut sum: i32 = 0;
    let mut k: usize = 0;
    assert(ids@ =~= Seq::<i32>::empty());
    while k < vals.len() && k + 1 < vals.len() && vals[k + 1] != 0
        invariant
            0 <= k <= vals.len(),
            yaku_spec(vals@, 0, Seq::empty(), 0i32) == yaku_spec(vals@, k as int, ids@, sum),
        decreases vals.len() - k,
    {
        ids.push(vals[k]);
        sum = sum.wrapping_add(vals[k + 1]);
        k = k + 2;
    }
    (ids, sum)
}

/// Fu and points of a win.
fn fu_and_points(t: &Vec<char>) -> (r: (i32, i32))
    ensures
        r == fu_points(t@),
{
    let ps = split_chars(t, ',');
    proof {
        crate::text::lemma_split_nonempty(t@, ',');
    }
    assert(views(ps@)[0] == ps@[0]@);
    let fu = parse_or_zero(&ps[0]);
    let pts = if ps.len() > 1 {
        assert(views(ps@)[1] == ps@[1]@);
        parse_or_zero(&ps[1])
    } else {
        0
    };
    (fu, pts)
}

/// A win (`AGARI`).
fn agari(gs: &mut GameState, attrs: &Vec<(String, String)>)
    requires
        wf(old(gs)@),
    ensures
        final(gs)@ == agari_spec(old(gs)@, attr_views(attrs@)),
        wf(final(gs)@),
{
    let ghost g0 = gs@;
    let ghost a = attr_views(attrs@);
    let who = attr_num(attrs, "who", 0, true, i8::MIN as i64, i8::MAX as i64) as i8;
    let from_who = attr_num(attrs, "fromwho", who as i64, true, i8::MIN as i64, i8::MAX as i64) as i8;
    let machi = attr_num(attrs, "machi", -1, true, i32::MIN as i64, i32::MAX as i64) as i32;
    let (fu, points) = match attr(attrs, "ten") {
        Some(t) => fu_and_points(&t),
        None => (0, 0),
    };
    let (han_ids, total_han) = match attr(attrs, "yaku") {
        Some(y) => {
            let vals = parse_ints(&split_chars(&y, ','));
            yaku(&vals)
        },
        None => {
            let e: Vec<i32> = Vec::new();
            assert(e@ =~= Seq::<i32>::empty());
            (e, 0)
        },
    };
    let is_tsumo = from_who == who;
    let mut snap = if is_tsumo {
        capture_snapshot(gs, who, "tsumo".to_string(), machi, -1, -1)
    } else {
        capture_snapshot(gs, who, "ron".to_string(), -1, machi, -1)
    };
    let ghost s0 = snap@;
    snap.agari_han_ids = han_ids;
    snap.agari_han = total_han;
    snap.agari_fu = fu;
    snap.agari_points = points;
    snap.agari_from = if is_tsumo { -1 } else { from_who };
    snap.agari_ura_dora = match attr(attrs, "dorahaiura") {
        Some(u) => parse_ints(&split_chars(&u, ',')),
        None => Vec::new(),
    };
    let end_kind: i8 = if is_tsumo { 1 } else { 2 };
    match attr(attrs, "sc") {
        Some(sc) => apply_sc(&mut gs.scores, &sc),
        None => {},
    }
    let fin = gs.scores;
    let ghost s1 = snap@;
    assert(s1 == SnapView {
        agari_han_ids: s1.agari_han_ids,
        agari_han: total_han,
        agari_fu: fu,
        agari_points: points,
        agari_from: if is_tsumo { -1i8 } else { from_who },
        agari_ura_dora: s1.agari_ura_dora,
        ..s0
    }) by {
        assert(s1.hand_before =~= s0.hand_before);
        assert(s1.rivers =~= s0.rivers);
        assert(s1.river_tsumo =~= s0.river_tsumo);
        assert(s1.melds =~= s0.melds);
    }
    let base = gs.round_start_scores;
    mark_win(&mut snap, end_kind, who, &fin, &base);
    let ghost g1 = gs@;
    gs.snapshots.push(snap);
    gs.seq = gs.seq.wrapping_add(1);
    let start = gs.round_start_idx;
    let end = gs.snapshots.len() - 1;
    let ghost rows = snap_views(gs.snapshots@);
    mark_rows_win(&mut gs.snapshots, start, end, end_kind, who, &fin, &base);
    proof {
        let ga = agari_spec(g0, a);
        assert(rows =~= g0.snapshots.push(snap@));
        assert(gs@.snapshots =~= ga.snapshots);
        assert(gs@.scores =~= ga.scores);
        lemma_same_lists(g0, gs@);
        assert(gs@ == ga);
    }
}

/// A drawn round (`RYUUKYOKU`).
fn ryuukyoku(gs: &mut GameState, attrs: &Vec<(String, String)>)
    requires
        wf(old(gs)@),
    ensures
        final(gs)@ == ryuukyoku_spec(old(gs)@, attr_views(attrs@)),
        wf(final(gs)@),
{
    let ghost g0 = gs@;
    let ghost a = attr_views(attrs@);
    let mut count: i8 = 0;
    let mut i: usize = 0;
    while i < 4
        invariant
            0 <= i <= 4,
            0 <= count <= i,
            a == attr_views(attrs@),
            g0 == gs@,
            wf(g0),
            count == tenpai_count(g0, a, i as int),
        decreases 4 - i,
    {
        let k = seat_key_of("hai", i);
        let listed = get_attr(attrs, &k).is_some();
        if listed || gs.riichi[i] {
            count = count + 1;
        }
        i = i + 1;
    }
    match attr(attrs, "sc") {
        Some(sc) => apply_sc(&mut gs.scores, &sc),
        None => {},
    }
    let fin = gs.scores;
    let riichi = gs.riichi;
    let start = gs.round_start_idx;
    let base = gs.round_start_scores;
    mark_rows_draw(&mut gs.snapshots, start, count, &riichi, &fin, &base);
    proof {
        let gr = ryuukyoku_spec(g0, a);
        assert(gs@.snapshots =~= gr.snapshots);
        assert(gs@.scores =~= gr.scores);
        lemma_same_lists(g0, gs@);
        assert(gs@ == gr);
    }
}

/// One start or empty-element tag.
fn open_tag(gs: &mut GameState, pending: &mut Option<(String, i32)>, name: &String, attrs: &Vec<(String, String)>) -> (r: StepResult)
    requires
        wf(old(gs)@),
    ensures
        (final(gs)@, pend_view(*final(pending)), flow_of(r)) == open_spec(old(gs)@, pend_view(*old(pending)), name@, attr_views(attrs@)),
        wf(final(gs)@),
{
    let tag = chars_of(name.as_str());
    if !(tag.len() == 0 || (tag[0] as u32) < 128) {
        return StepResult::Fail("unsupported tag name".to_string());
    }
    let (pfx, to) = split_tag(&tag);
    if pfx == 'g' && chars_eq_lit(&tag, "go") {
        go_tag(gs, attrs);
    } else if pfx == 'u' && chars_eq_lit(&tag, "un") {
        players(gs, attrs);
    } else if pfx == 't' && chars_eq_lit(&tag, "taikyoku") {
        taikyoku_tag(gs, attrs);
    } else if pfx == 'i' && chars_eq_lit(&tag, "init") {
        reset_round(gs, attrs);
        *pending = None;
    } else if (pfx == 't' || pfx == 'u' || pfx == 'v' || pfx == 'w') && to.is_some() {
        let seat: usize = if pfx == 't' {
            0
        } else if pfx == 'u' {
            1
        } else if pfx == 'v' {
            2
        } else {
            3
        };
        let tile = to.unwrap();
        draw(gs, seat, tile);
        proof {
            lemma_same_board_lens(old(gs)@, gs@);
        }
    } else if (pfx == 'd' || pfx == 'e' || pfx == 'f' || pfx == 'g') && to.is_some() {
        let seat: usize = if pfx == 'd' {
            0
        } else if pfx == 'e' {
            1
        } else if pfx == 'f' {
            2
        } else {
            3
        };
        let tile = to.unwrap();
        discard(gs, pending, seat, tile);
    } else if pfx == 'n' {
        let who = attr_num(attrs, "who", 0, true, i8::MIN as i64, i8::MAX as i64);
        if who < 0 || who > 3 {
            return StepResult::Fail("seat out of range".to_string());
        }
        let m = attr_num(attrs, "m", 0, false, 0, u32::MAX as i64) as u32;
        meld(gs, pending, who as usize, m);
    } else if pfx == 'r' && starts_with_lit(&tag, "reach") {
        if !reach(gs, attrs) {
            return StepResult::Fail("seat out of range".to_string());
        }
        proof {
            lemma_same_board_lens(old(gs)@, gs@);
        }
    } else if pfx == 'd' && chars_eq_lit(&tag, "dora") {
        dora(gs, attrs);
    } else if pfx == 'a' && chars_eq_lit(&tag, "agari") {
        agari(gs, attrs);
        if attr(attrs, "owari").is_some() {
            return StepResult::Stop;
        }
    } else if pfx == 'r' && chars_eq_lit(&tag, "ryuukyoku") {
        ryuukyoku(gs, attrs);
    }
    StepResult::Continue
}

/// Well-formedness only looks at the river lists and the rows, so it carries
/// over to a state that changed neither.
proof fn lemma_same_board_lens(g0: GameView, g1: GameView)
    requires
        wf(g0),
        g1.hands.len() == 4,
        g1.river_tsumo.len() == 4,
        g1.melds.len() == 4,
        g1.scores.len() == 4,
        g1.turns.len() == 4,
        g1.riichi.len() == 4,
        g1.rivers == g0.rivers,
        g1.river_seq == g0.river_seq,
        g1.snapshots == g0.snapshots,
        g1.round_start_idx == g0.round_start_idx,
    ensures
        wf(g1),
{
}

/// One event of the log.
fn step(gs: &mut GameState, pending: &mut Option<(String, i32)>, ev: &XmlEvent) -> (r: StepResult)
    requires
        wf(old(gs)@),
    ensures
        (final(gs)@, pend_view(*final(pending)), flow_of(r)) == step_spec(old(gs)@, pend_view(*old(pending)), *ev),
        wf(final(gs)@),
{
    match ev {
        XmlEvent::Open { name, attrs } => open_tag(gs, pending, name, attrs),
        XmlEvent::Close { name } => {
            if eq_lit(name, "mjloggm") {
                StepResult::Stop
            } else {
                StepResult::Continue
            }
        },
        XmlEvent::Eof => StepResult::Stop,
        XmlEvent::Error { message } => {
            let mut v = chars_of("XML parse error: ");
            let m = chars_of(message.as_str());
            append_chars(&mut v, &m);
            StepResult::Fail(string_of(&v))
        },
        XmlEvent::Other => StepResult::Continue,
    }
}

/// The snapshots of one game from its XML events: each event is applied in
/// turn until the input ends, `mjloggm` closes or a final `AGARI` (with
/// `owari`) is read; an error event, or a tag the state machine cannot
/// apply (a seat outside 0..=3 where one is indexed, a tag name starting
/// with a non-ASCII character), makes the result an error.
pub fn parse_events(events: &Vec<XmlEvent>, game_id: &str) -> (r: Result<Vec<Snapshot>, String>)
    ensures
        result_view(r) == run_spec(init_view(game_id@), None, events@),
{
    let mut gs = GameState::default();
    gs.game_id = game_id.to_string();
    let mut pending: Option<(String, i32)> = None;
    proof {
        assert(gs@.hands =~= init_view(game_id@).hands);
        assert(gs@.rivers =~= init_view(game_id@).rivers);
        assert(gs@.river_tsumo =~= init_view(game_id@).river_tsumo);
        assert(gs@.river_seq =~= init_view(game_id@).river_seq);
        assert(gs@.melds =~= init_view(game_id@).melds);
        assert(gs@.names =~= init_view(game_id@).names);
        assert(gs@.sexes =~= init_view(game_id@).sexes);
        assert(gs@ == init_view(game_id@));
    }
    let ghost total = run_spec(init_view(game_id@), None, events@);
    assert(events@.subrange(0, events@.len() as int) =~= events@);
    let mut i: usize = 0;
    while i < events.len()
        invariant
            0 <= i <= events.len(),
            wf(gs@),
            total == run_spec(init_view(game_id@), None, events@),
            total == run_spec(gs@, pend_view(pending), events@.subrange(i as int, events@.len() as int)),
        decreases events.len() - i,
    {
        let ghost rest = events@.subrange(i as int, events@.len() as int);
        assert(rest[0] == events@[i as int]);
        assert(rest.drop_first() =~= events@.subrange(i + 1, events@.len() as int));
        match step(&mut gs, &mut pending, &events[i]) {
            StepResult::Continue => {},
            StepResult::Stop => {
                return Ok(gs.snapshots);
            },
            StepResult::Fail(m) => {
                return Err(m);
            },
        }
        i = i + 1;
    }
    Ok(gs.snapshots)
}

/// One reader event, as [`step_spec`] takes its view.
pub open spec fn step_item(g: GameView, pending: Option<(Seq<char>, i32)>, it: XmlItem) -> (GameView, Option<(Seq<char>, i32)>, Flow) {
    match it {
        XmlItem::Start(n, a) => open_spec(g, pending, lowercase(utf8_lossy(n)), attr_pairs(a)),
        XmlItem::End(n) => (g, pending, if lowercase(utf8_lossy(n)) == "mjloggm"@ { Flow::Stop } else { Flow::Go }),
        XmlItem::Eof => (g, pending, Flow::Stop),
        XmlItem::Error(m) => (g, pending, Flow::Fail("XML parse error: "@ + m)),
        XmlItem::Other => (g, pending, Flow::Go),
    }
}

/// The rows produced from the reader's events, as [`run_spec`] produces
/// them from the state machine's view of those events.
pub open spec fn run_items(g: GameView, pending: Option<(Seq<char>, i32)>, items: Seq<XmlItem>) -> Result<Seq<SnapView>, Seq<char>>
    decreases items.len(),
{
    if items.len() == 0 {
        Ok(g.snapshots)
    } else {
        let (g2, p2, f) = step_item(g, pending, items[0]);
        match f {
            Flow::Go => run_items(g2, p2, items.drop_first()),
            Flow::Stop => Ok(g2.snapshots),
            Flow::Fail(m) => Err(m),
        }
    }
}

/// The state machine gives the same on events as on the reader events they
/// are read from.
pub proof fn lemma_run_items(g: GameView, pending: Option<(Seq<char>, i32)>, evs: Seq<XmlEvent>, items: Seq<XmlItem>)
    requires
        events_of(evs, items),
    ensures
        run_spec(g, pending, evs) == run_items(g, pending, items),
    decreases items.len(),
{
    if items.len() > 0 {
        assert(event_of(evs[0], items[0]));
        assert(step_spec(g, pending, evs[0]) == step_item(g, pending, items[0]));
        let (g2, p2, f) = step_item(g, pending, items[0]);
        assert(events_of(evs.drop_first(), items.drop_first())) by {
            assert forall|i: int| 0 <= i < items.drop_first().len() implies event_of(#[trigger] evs.drop_first()[i], items.drop_first()[i]) by {
                assert(event_of(evs[i + 1], items[i + 1]));
            }
        }
        lemma_run_items(g2, p2, evs.drop_first(), items.drop_first());
    }
}

/// The snapshots of one game from its mjlog XML: the state machine run on
/// the events the reader yields for the text.  The events themselves are
/// also given, as the state machine reads them, for the laws stated over
/// [`run_spec`].
pub fn parse_game_xml(xml: &str, game_id: &str) -> (r: Result<Vec<Snapshot>, String>)
    ensures
        result_view(r) == run_items(init_view(game_id@), None, xml_items(xml@)),
        exists|evs: Seq<XmlEvent>| #[trigger] events_of(evs, xml_items(xml@))
            && result_view(r) == run_spec(init_view(game_id@), None, evs),
{
    let evs = read_events(xml);
    let r = parse_events(&evs, game_id);
    assert(result_view(r) == run_spec(init_view(game_id@), None, evs@));
    proof {
        lemma_run_items(init_view(game_id@), None, evs@, xml_items(xml@));
    }
    r
}

// ── laws ──────────────────────────────────────────────────────

/// The rows are numbered by their position, the counter standing at the
/// next number, and every row (and the state) keeps one tsumogiri flag per
/// river tile.
pub open spec fn rows_consistent(g: GameView) -> bool {
    &&& g.seq == g.snapshots.len()
    &&& forall|j: int| 0 <= j < g.snapshots.len() ==> #[trigger] g.snapshots[j].seq == j
    &&& g.rivers.len() == 4 && g.river_tsumo.len() == 4
    &&& forall|p: int| 0 <= p < 4 ==> #[trigger] g.river_tsumo[p].len() == g.rivers[p].len()
    &&& forall|j: int, p: int| 0 <= j < g.snapshots.len() && 0 <= p < 4
        ==> (#[trigger] g.snapshots[j].river_tsumo[p]).len() == g.snapshots[j].rivers[p].len()
    &&& forall|j: int| 0 <= j < g.snapshots.len() ==> (#[trigger] g.snapshots[j]).rivers.len() == 4
        && g.snapshots[j].river_tsumo.len() == 4
}

proof fn lemma_update_scores_len(sc: Seq<i32>, pieces: Seq<Seq<char>>, n: int)
    requires
        sc.len() >= 4,
    ensures
        update_scores_spec(sc, pieces, n).len() == sc.len(),
    decreases n,
{
    if n > 0 {
        lemma_update_scores_len(sc, pieces, n - 1);
    }
}

proof fn lemma_push_consistent(g: GameView, s: SnapView)
    requires
        rows_consistent(g),
        wf(g),
        g.snapshots.len() < i32::MAX,
        s.seq == g.seq,
        s.rivers == g.rivers,
        s.river_tsumo == g.river_tsumo,
    ensures
        rows_consistent(push_snap(g, s)),
        wf(push_snap(g, s)),
        push_snap(g, s).snapshots.len() == g.snapshots.len() + 1,
{
    let g2 = push_snap(g, s);
    assert forall|j: int| 0 <= j < g2.snapshots.len() implies #[trigger] g2.snapshots[j].seq == j by {
        if j < g.snapshots.len() {
            assert(g2.snapshots[j] == g.snapshots[j]);
        }
    }
    assert forall|j: int, p: int| 0 <= j < g2.snapshots.len() && 0 <= p < 4
        implies (#[trigger] g2.snapshots[j].river_tsumo[p]).len() == g2.snapshots[j].rivers[p].len() by {
        if j < g.snapshots.len() {
            assert(g2.snapshots[j] == g.snapshots[j]);
        }
    }
    assert forall|j: int| 0 <= j < g2.snapshots.len() implies (#[trigger] g2.snapshots[j]).rivers.len() == 4
        && g2.snapshots[j].river_tsumo.len() == 4 by {
        if j < g.snapshots.len() {
            assert(g2.snapshots[j] == g.snapshots[j]);
        }
    }
}

proof fn lemma_discard_consistent(g: GameView, pending: Option<(Seq<char>, i32)>, p: int, tile: i32)
    requires
        rows_consistent(g),
        wf(g),
        0 <= p < 4,
        g.snapshots.len() < i32::MAX,
    ensures
        rows_consistent(discard_spec(g, pending, p, tile)),
        wf(discard_spec(g, pending, p, tile)),
        discard_spec(g, pending, p, tile).snapshots.len() == g.snapshots.len() + 1,
{
    let is_reach = g.pending_reach_player == p;
    let g1 = if is_reach {
        GameView {
            riichi: g.riichi.update(p, true),
            riichi_seq: g.riichi_seq.update(p, g.seq),
            riichi_tile: g.riichi_tile.update(p, tile),
            ..g
        }
    } else {
        g
    };
    match pending {
        Some((mt, ct)) => lemma_push_consistent(g1, capture_spec(g1, p as i8, mt, -1i32, ct, tile)),
        None => {
            let at = if g1.pending_reach_player == p as i8 {
                "reach"@
            } else if g1.last_draw == tile {
                "tsumogiri"@
            } else {
                "discard"@
            };
            lemma_push_consistent(g1, SnapView { is_tsumogiri: g1.last_draw == tile, ..capture_spec(g1, p as i8, at, g1.last_draw, -1i32, tile) });
        },
    }
    let g2 = match pending {
        Some((mt, ct)) => emit_meld_discard_spec(g1, p as i8, tile, mt, ct),
        None => emit_discard_spec(g1, p as i8, tile),
    };
    let g3 = if is_reach { GameView { pending_reach_player: -1i8, ..g2 } } else { g2 };
    let g4 = discard_spec(g, pending, p, tile);
    assert(g4.snapshots == g3.snapshots);
    assert forall|q: int| 0 <= q < 4 implies #[trigger] g4.river_tsumo[q].len() == g4.rivers[q].len() by {
        if q == p {
        } else {
            assert(g4.river_tsumo[q] == g3.river_tsumo[q]);
            assert(g4.rivers[q] == g3.rivers[q]);
        }
    }
    assert forall|q: int| 0 <= q < 4 implies #[trigger] g4.rivers[q].len() == g4.river_seq[q].len() by {
        if q != p {
            assert(g4.rivers[q] == g3.rivers[q]);
            assert(g4.river_seq[q] == g3.river_seq[q]);
        }
    }
}

proof fn lemma_kan_consistent(g: GameView, who: int, kt: Seq<char>, kan_tile: i32)
    requires
        rows_consistent(g),
        wf(g),
        g.snapshots.len() < i32::MAX,
    ensures
        rows_consistent(emit_kan_spec(kan_prep(g), who as i8, kt, kan_tile)),
        wf(emit_kan_spec(kan_prep(g), who as i8, kt, kan_tile)),
        emit_kan_spec(kan_prep(g), who as i8, kt, kan_tile).snapshots.len() == g.snapshots.len() + 1,
{
    let g1 = kan_prep(g);
    let (drawn, called, discard) = if kt == "ankan"@ || kt == "kakan"@ {
        (g1.last_draw, -1i32, kan_tile)
    } else if kt == "daiminkan"@ || kt == "shominkan"@ {
        (-1i32, kan_tile, -1i32)
    } else {
        (-1i32, -1i32, -1i32)
    };
    lemma_push_consistent(g1, capture_spec(g1, who as i8, kt, drawn, called, discard));
}

proof fn lemma_win_consistent(g: GameView, a: Seq<(Seq<char>, Seq<char>)>)
    requires
        rows_consistent(g),
        wf(g),
        g.snapshots.len() < i32::MAX,
    ensures
        rows_consistent(agari_spec(g, a)),
        wf(agari_spec(g, a)),
        agari_spec(g, a).snapshots.len() == g.snapshots.len() + 1,
{
    let g2 = agari_spec(g, a);
    assert forall|j: int| 0 <= j < g2.snapshots.len() implies #[trigger] g2.snapshots[j].seq == j by {}
    assert forall|j: int, p: int| 0 <= j < g2.snapshots.len() && 0 <= p < 4
        implies (#[trigger] g2.snapshots[j].river_tsumo[p]).len() == g2.snapshots[j].rivers[p].len() by {}
    assert forall|j: int| 0 <= j < g2.snapshots.len() implies (#[trigger] g2.snapshots[j]).rivers.len() == 4
        && g2.snapshots[j].river_tsumo.len() == 4 by {}
}

proof fn lemma_open_consistent(g: GameView, pending: Option<(Seq<char>, i32)>, tag: Seq<char>, a: Seq<(Seq<char>, Seq<char>)>)
    requires
        rows_consistent(g),
        wf(g),
        g.snapshots.len() < i32::MAX,
    ensures
        rows_consistent(open_spec(g, pending, tag, a).0),
        wf(open_spec(g, pending, tag, a).0),
        open_spec(g, pending, tag, a).0.snapshots.len() <= g.snapshots.len() + 1,
{
    if tag_ok(tag) {
        let (pfx, to) = split_tag_spec(tag);
        if pfx == 'g' && tag == "go"@ {
        } else if pfx == 'u' && tag == "un"@ {
        } else if pfx == 't' && tag == "taikyoku"@ {
        } else if pfx == 'i' && tag == "init"@ {
            match attr_get(a, "ten"@) {
                Some(t) => lemma_update_scores_len(g.scores, split_spec(t, ','), 4),
                None => {},
            }
            let g2 = reset_spec(g, a);
            assert forall|p: int| 0 <= p < 4 implies #[trigger] g2.river_tsumo[p].len() == g2.rivers[p].len() by {}
            assert forall|p: int| 0 <= p < 4 implies #[trigger] g2.rivers[p].len() == g2.river_seq[p].len() by {}
        } else if (pfx == 't' || pfx == 'u' || pfx == 'v' || pfx == 'w') && to.is_some() {
        } else if (pfx == 'd' || pfx == 'e' || pfx == 'f' || pfx == 'g') && to.is_some() {
            lemma_discard_consistent(g, pending, discard_seat(pfx), to.unwrap() as i32);
        } else if pfx == 'n' {
            let who = attr_i8(a, "who"@, 0);
            if 0 <= who <= 3 {
                let m = attr_int(a, "m"@, 0, false, 0, u32::MAX as int) as u32;
                let w = who as int;
                let (tp, tiles0, guess, from_guess, called_pos) = decode_meld_spec(m, who);
                let (called, from, best) = call_source(g, w, guess, from_guess);
                let (tiles1, rest) = resolve_tiles(tiles0, tiles0.len() as int, guess, called, g.hands[w]);
                let mt = if tp == "pon"@ && count_of_kind(g.hands[w], kind_of(called)) >= 3 { "daiminkan"@ } else { tp };
                let tiles2 = sorted_tiles(tiles1);
                let entry = MeldView {
                    meld_type: mt,
                    tiles: tiles2,
                    called_tile: called,
                    from_player: from,
                    discard_n: g.turns[w],
                    called_pos: called_pos,
                };
                let g1 = GameView {
                    melds: g.melds.update(w, g.melds[w].push(entry)),
                    actor: who,
                    last_draw: if called > 0 { called } else { g.last_draw },
                    ..g
                };
                if mt == "chi"@ || mt == "pon"@ {
                } else if mt == "daiminkan"@ || mt == "shominkan"@ {
                    lemma_kan_consistent(g1, w, mt, called);
                } else if mt == "ankan"@ {
                    lemma_kan_consistent(g1, w, mt, tiles2[0]);
                } else if mt == "kakan"@ {
                    lemma_kan_consistent(g1, w, mt, tiles2[3]);
                }
            }
        } else if pfx == 'r' && "reach"@.is_prefix_of(tag) {
            let who = attr_i8(a, "who"@, 0);
            if attr_i32(a, "step"@, 1) == 2 && 0 <= who <= 3 {
                match attr_get(a, "ten"@) {
                    Some(t) => lemma_update_scores_len(
                        g.scores.update(who as int, g.scores[who as int].wrapping_sub(10)), split_spec(t, ','), 4),
                    None => {},
                }
            }
        } else if pfx == 'd' && tag == "dora"@ {
        } else if pfx == 'a' && tag == "agari"@ {
            lemma_win_consistent(g, a);
        } else if pfx == 'r' && tag == "ryuukyoku"@ {
            let g2 = ryuukyoku_spec(g, a);
            assert forall|j: int| 0 <= j < g2.snapshots.len() implies #[trigger] g2.snapshots[j].seq == j by {}
            assert forall|j: int, p: int| 0 <= j < g2.snapshots.len() && 0 <= p < 4
                implies (#[trigger] g2.snapshots[j].river_tsumo[p]).len() == g2.snapshots[j].rivers[p].len() by {}
            assert forall|j: int| 0 <= j < g2.snapshots.len() implies (#[trigger] g2.snapshots[j]).rivers.len() == 4
                && g2.snapshots[j].river_tsumo.len() == 4 by {}
        }
    }
}

proof fn lemma_run_consistent(g: GameView, pending: Option<(Seq<char>, i32)>, evs: Seq<XmlEvent>)
    requires
        rows_consistent(g),
        wf(g),
        g.snapshots.len() + evs.len() <= i32::MAX,
    ensures
        run_spec(g, pending, evs) matches Ok(rows) ==> {
            &&& forall|j: int| 0 <= j < rows.len() ==> #[trigger] rows[j].seq == j
            &&& forall|j: int, p: int| 0 <= j < rows.len() && 0 <= p < 4
                ==> (#[trigger] rows[j].river_tsumo[p]).len() == rows[j].rivers[p].len()
        },
    decreases evs.len(),
{
    if evs.len() > 0 {
        let (g2, p2, f) = step_spec(g, pending, evs[0]);
        match evs[0] {
            XmlEvent::Open { name, attrs } => lemma_open_consistent(g, pending, name@, attr_views(attrs@)),
            _ => {},
        }
        lemma_run_consistent(g2, p2, evs.drop_first());
    }
}

/// The rows of a log are numbered by their position (the counter runs
/// across rounds and never skips), and every row keeps one tsumogiri flag
/// per tile of each river, for logs of fewer than 2^31 events.
pub proof fn law_rows_numbered(game_id: Seq<char>, evs: Seq<XmlEvent>)
    requires
        evs.len() <= i32::MAX,
    ensures
        run_spec(init_view(game_id), None, evs) matches Ok(rows) ==> {
            &&& forall|j: int| 0 <= j < rows.len() ==> #[trigger] rows[j].seq == j
            &&& forall|j: int, p: int| 0 <= j < rows.len() && 0 <= p < 4
                ==> (#[trigger] rows[j].river_tsumo[p]).len() == rows[j].rivers[p].len()
        },
{
    let g = init_view(game_id);
    assert forall|p: int| 0 <= p < 4 implies #[trigger] g.river_tsumo[p].len() == g.rivers[p].len() by {}
    assert forall|p: int| 0 <= p < 4 implies #[trigger] g.rivers[p].len() == g.river_seq[p].len() by {}
    lemma_run_consistent(g, None, evs);
}

/// A drawn round adds no row and writes its outcome into every row of the
/// round; a win adds exactly one row, the winner's, labelled `tsumo` or
/// `ron`, and writes the outcome into every row of the round.  The score
/// change written is the round's: final scores less those at its start.
pub proof fn law_round_end_rows(g: GameView, a: Seq<(Seq<char>, Seq<char>)>)
    requires
        wf(g),
    ensures
        ryuukyoku_spec(g, a).snapshots.len() == g.snapshots.len(),
        forall|j: int| g.round_start_idx <= j < g.snapshots.len() ==> {
            let r = #[trigger] ryuukyoku_spec(g, a).snapshots[j];
            &&& r.round_end_kind == 0
            &&& r.round_winner == -1
            &&& r.round_point_delta == delta_spec(ryuukyoku_spec(g, a).scores, g.round_start_scores)
        },
        agari_spec(g, a).snapshots.len() == g.snapshots.len() + 1,
        agari_spec(g, a).snapshots.last().action_type == "tsumo"@
            || agari_spec(g, a).snapshots.last().action_type == "ron"@,
        agari_spec(g, a).snapshots.last().actor == attr_i8(a, "who"@, 0),
        forall|j: int| g.round_start_idx <= j < agari_spec(g, a).snapshots.len() ==> {
            let r = #[trigger] agari_spec(g, a).snapshots[j];
            &&& r.round_winner == attr_i8(a, "who"@, 0)
            &&& (r.round_end_kind == 1 || r.round_end_kind == 2)
            &&& r.round_point_delta == delta_spec(agari_spec(g, a).scores, g.round_start_scores)
        },
{
}

// ── order of hands and melds ──────────────────────────────────

/// Ascending order.
pub open spec fn ascending(s: Seq<i32>) -> bool {
    forall|i: int, k: int| 0 <= i < k < s.len() ==> s[i] <= s[k]
}

/// Every tile of `r` is a tile of `s`.
pub open spec fn drawn_from(r: Seq<i32>, s: Seq<i32>) -> bool {
    forall|i: int| 0 <= i < r.len() ==> s.contains(#[trigger] r[i])
}

/// A meld as the parser makes it: three or four tiles in ascending order,
/// and a type free of JSON punctuation (`chi`, `pon`, `daiminkan`, `ankan`,
/// `kakan`).
pub open spec fn meld_ok(m: MeldView) -> bool {
    &&& ascending(m.tiles)
    &&& m.tiles.len() == 3 || m.tiles.len() == 4
    &&& plain_meld(m)
}

/// A row's four hands are in ascending order, its melds are as the parser
/// makes them, and a row of a call that takes a tile in records that tile as
/// the one drawn.
pub open spec fn row_well_formed(s: SnapView) -> bool {
    &&& s.hand_before.len() == 4
    &&& s.melds.len() == 4
    &&& forall|p: int| 0 <= p < 4 ==> ascending(#[trigger] s.hand_before[p])
    &&& forall|p: int, i: int| 0 <= p < 4 && 0 <= i < s.melds[p].len() ==> meld_ok(#[trigger] s.melds[p][i])
    &&& call_action(s.action_type) ==> s.drawn_tile == s.called_tile
}

/// The actions that take another player's tile in: chi, pon and the open kans.
pub open spec fn call_action(at: Seq<char>) -> bool {
    at == "chi"@ || at == "pon"@ || at == "daiminkan"@ || at == "shominkan"@
}

/// The same of the state's hands and melds, and of every row.
pub open spec fn state_well_formed(g: GameView) -> bool {
    &&& g.hands.len() == 4
    &&& g.melds.len() == 4
    &&& forall|p: int| 0 <= p < 4 ==> ascending(#[trigger] g.hands[p])
    &&& forall|p: int, i: int| 0 <= p < 4 && 0 <= i < g.melds[p].len() ==> meld_ok(#[trigger] g.melds[p][i])
    &&& forall|j: int| 0 <= j < g.snapshots.len() ==> row_well_formed(#[trigger] g.snapshots[j])
}

proof fn lemma_meld_types_plain(mt: Seq<char>)
    requires
        mt == "chi"@ || mt == "pon"@ || mt == "daiminkan"@ || mt == "ankan"@ || mt == "kakan"@,
    ensures
        forall|i: int| 0 <= i < mt.len() ==> plain_char(#[trigger] mt[i]),
{
    reveal_strlit("chi");
    reveal_strlit("pon");
    reveal_strlit("daiminkan");
    reveal_strlit("ankan");
    reveal_strlit("kakan");
}

proof fn lemma_sorted_ascending(s: Seq<i32>)
    ensures
        ascending(sorted_tiles(s)),
{
    assert(vstd::relations::total_ordering(tile_le()));
    s.lemma_sort_by_ensures(tile_le());
    let t = sorted_tiles(s);
    assert forall|i: int, k: int| 0 <= i < k < t.len() implies t[i] <= t[k] by {
        assert(tile_le()(t[i], t[k]));
    }
}

proof fn lemma_remove_first_ascending(s: Seq<i32>, x: i32)
    requires
        ascending(s),
    ensures
        ascending(remove_first(s, x)),
        drawn_from(remove_first(s, x), s),
    decreases s.len(),
{
    if s.len() > 0 {
        let rest = s.drop_first();
        if s[0] == x {
            assert forall|i: int| 0 <= i < rest.len() implies s.contains(#[trigger] rest[i]) by {
                assert(rest[i] == s[i + 1]);
            }
        } else {
            assert forall|i: int, k: int| 0 <= i < k < rest.len() implies rest[i] <= rest[k] by {
                assert(rest[i] == s[i + 1] && rest[k] == s[k + 1]);
            }
            lemma_remove_first_ascending(rest, x);
            let r = remove_first(rest, x);
            let out = seq![s[0]] + r;
            assert(remove_first(s, x) == out);
            assert forall|i: int| 0 <= i < r.len() implies s[0] <= #[trigger] r[i] && s.contains(r[i]) by {
                assert(rest.contains(r[i]));
                let k = choose|k: int| 0 <= k < rest.len() && rest[k] == r[i];
                assert(rest[k] == s[k + 1]);
            }
            assert forall|i: int, k: int| 0 <= i < k < out.len() implies out[i] <= out[k] by {
                assert(out[k] == r[k - 1]);
                if i > 0 {
                    assert(out[i] == r[i - 1]);
                }
            }
            assert forall|i: int| 0 <= i < out.len() implies s.contains(#[trigger] out[i]) by {
                if i == 0 {
                    assert(out[0] == s[0]);
                } else {
                    assert(out[i] == r[i - 1]);
                }
            }
        }
    }
}

proof fn lemma_without_ascending(s: Seq<i32>, x: i32)
    requires
        ascending(s),
    ensures
        ascending(without(s, x)),
        drawn_from(without(s, x), s),
    decreases s.len(),
{
    if s.len() > 0 {
        let init = s.drop_last();
        assert forall|i: int, k: int| 0 <= i < k < init.len() implies init[i] <= init[k] by {
            assert(init[i] == s[i] && init[k] == s[k]);
        }
        lemma_without_ascending(init, x);
        let w = without(init, x);
        assert forall|i: int| 0 <= i < w.len() implies #[trigger] w[i] <= s.last() && s.contains(w[i]) by {
            assert(init.contains(w[i]));
            let k = choose|k: int| 0 <= k < init.len() && init[k] == w[i];
            assert(init[k] == s[k]);
        }
        if s.last() != x {
            let out = w.push(s.last());
            assert forall|i: int, k: int| 0 <= i < k < out.len() implies out[i] <= out[k] by {
                assert(out[i] == w[i]);
                if k < w.len() {
                    assert(out[k] == w[k]);
                }
            }
            assert forall|i: int| 0 <= i < out.len() implies s.contains(#[trigger] out[i]) by {
                if i < w.len() {
                    assert(out[i] == w[i]);
                } else {
                    assert(out[i] == s[s.len() - 1]);
                }
            }
        }
    }
}

proof fn lemma_remove_except_ascending(h: Seq<i32>, tiles: Seq<i32>, called: i32, n: int)
    requires
        ascending(h),
    ensures
        ascending(remove_except(h, tiles, called, n)),
    decreases n,
{
    if n > 0 {
        lemma_remove_except_ascending(h, tiles, called, n - 1);
        lemma_remove_first_ascending(remove_except(h, tiles, called, n - 1), tiles[n - 1]);
    }
}

proof fn lemma_remove_all_ascending(h: Seq<i32>, tiles: Seq<i32>, n: int)
    requires
        ascending(h),
    ensures
        ascending(remove_all(h, tiles, n)),
    decreases n,
{
    if n > 0 {
        lemma_remove_all_ascending(h, tiles, n - 1);
        lemma_remove_first_ascending(remove_all(h, tiles, n - 1), tiles[n - 1]);
    }
}

proof fn lemma_remove_meld_ascending(h: Seq<i32>, mt: Seq<char>, tiles: Seq<i32>, called: i32)
    requires
        ascending(h),
    ensures
        ascending(remove_meld_spec(h, mt, tiles, called)),
{
    lemma_remove_except_ascending(h, tiles, called, tiles.len() as int);
    lemma_remove_all_ascending(h, tiles, tiles.len() as int);
    lemma_remove_first_ascending(h, tiles[0]);
}

/// The actions of plain discards, closed kans and wins take no tile in.
proof fn lemma_plain_actions()
    ensures
        !call_action("reach"@),
        !call_action("tsumogiri"@),
        !call_action("discard"@),
        !call_action("ankan"@),
        !call_action("kakan"@),
        !call_action("tsumo"@),
        !call_action("ron"@),
{
    reveal_strlit("reach");
    reveal_strlit("tsumogiri");
    reveal_strlit("discard");
    reveal_strlit("ankan");
    reveal_strlit("kakan");
    reveal_strlit("tsumo");
    reveal_strlit("ron");
    reveal_strlit("chi");
    reveal_strlit("pon");
    reveal_strlit("daiminkan");
    reveal_strlit("shominkan");
    assert("tsumogiri"@[0] != "daiminkan"@[0]);
    assert("tsumogiri"@[0] != "shominkan"@[0]);
    assert("chi"@.len() == 3 && "pon"@.len() == 3);
    assert("daiminkan"@.len() == 9 && "shominkan"@.len() == 9);
    assert("reach"@.len() == 5 && "ankan"@.len() == 5 && "kakan"@.len() == 5 && "tsumo"@.len() == 5);
    assert("discard"@.len() == 7 && "ron"@.len() == 3);
    assert("ron"@[0] != "chi"@[0] && "ron"@[0] != "pon"@[0]);
}

proof fn lemma_push_ordered(g: GameView, s: SnapView)
    requires
        state_well_formed(g),
        row_well_formed(s),
    ensures
        state_well_formed(push_snap(g, s)),
{
    let g2 = push_snap(g, s);
    assert forall|j: int| 0 <= j < g2.snapshots.len() implies row_well_formed(#[trigger] g2.snapshots[j]) by {
        if j < g.snapshots.len() {
            assert(g2.snapshots[j] == g.snapshots[j]);
        }
    }
}

proof fn lemma_draw_ordered(g: GameView, p: int, tile: i32)
    requires
        state_well_formed(g),
        0 <= p < 4,
    ensures
        state_well_formed(draw_spec(g, p, tile)),
{
    lemma_sorted_ascending(g.hands[p].push(tile));
    let g2 = draw_spec(g, p, tile);
    assert forall|q: int| 0 <= q < 4 implies ascending(#[trigger] g2.hands[q]) by {
        if q != p {
            assert(g2.hands[q] == g.hands[q]);
        }
    }
}

proof fn lemma_discard_ordered(g: GameView, pending: Option<(Seq<char>, i32)>, p: int, tile: i32)
    requires
        state_well_formed(g),
        0 <= p < 4,
    ensures
        state_well_formed(discard_spec(g, pending, p, tile)),
{
    let is_reach = g.pending_reach_player == p;
    let g1 = if is_reach {
        GameView {
            riichi: g.riichi.update(p, true),
            riichi_seq: g.riichi_seq.update(p, g.seq),
            riichi_tile: g.riichi_tile.update(p, tile),
            ..g
        }
    } else {
        g
    };
    match pending {
        Some((mt, ct)) => lemma_push_ordered(g1, capture_spec(g1, p as i8, mt, ct, ct, tile)),
        None => {
            lemma_plain_actions();
            let at = if g1.pending_reach_player == p as i8 {
                "reach"@
            } else if g1.last_draw == tile {
                "tsumogiri"@
            } else {
                "discard"@
            };
            lemma_push_ordered(g1, SnapView { is_tsumogiri: g1.last_draw == tile, ..capture_spec(g1, p as i8, at, g1.last_draw, -1i32, tile) });
        },
    }
    let g2 = match pending {
        Some((mt, ct)) => emit_meld_discard_spec(g1, p as i8, tile, mt, ct),
        None => emit_discard_spec(g1, p as i8, tile),
    };
    let g3 = if is_reach { GameView { pending_reach_player: -1i8, ..g2 } } else { g2 };
    let g4 = discard_spec(g, pending, p, tile);
    assert(g3.hands == g.hands);
    lemma_without_ascending(g.hands[p], tile);
    assert forall|q: int| 0 <= q < 4 implies ascending(#[trigger] g4.hands[q]) by {
        if q != p {
            assert(g4.hands[q] == g.hands[q]);
        }
    }
}

proof fn lemma_kan_ordered(g: GameView, who: int, kt: Seq<char>, kan_tile: i32)
    requires
        state_well_formed(g),
    ensures
        state_well_formed(emit_kan_spec(kan_prep(g), who as i8, kt, kan_tile)),
{
    let g1 = kan_prep(g);
    let (drawn, called, discard) = if kt == "ankan"@ || kt == "kakan"@ {
        (g1.last_draw, -1i32, kan_tile)
    } else if kt == "daiminkan"@ || kt == "shominkan"@ {
        (kan_tile, kan_tile, -1i32)
    } else {
        (-1i32, -1i32, -1i32)
    };
    lemma_plain_actions();
    lemma_push_ordered(g1, capture_spec(g1, who as i8, kt, drawn, called, discard));
}

proof fn lemma_meld_ordered(g: GameView, pending: Option<(Seq<char>, i32)>, who: int, m: u32)
    requires
        state_well_formed(g),
        0 <= who < 4,
    ensures
        state_well_formed(meld_spec(g, pending, who, m).0),
{
    let (tp, tiles0, guess, from_guess, called_pos) = decode_meld_spec(m, who as i8);
    let (called, from, best) = call_source(g, who, guess, from_guess);
    let (tiles1, rest) = resolve_tiles(tiles0, tiles0.len() as int, guess, called, g.hands[who]);
    let mt = if tp == "pon"@ && count_of_kind(g.hands[who], kind_of(called)) >= 3 { "daiminkan"@ } else { tp };
    let tiles2 = sorted_tiles(tiles1);
    let entry = MeldView {
        meld_type: mt,
        tiles: tiles2,
        called_tile: called,
        from_player: from,
        discard_n: g.turns[who],
        called_pos: called_pos,
    };
    let g1 = GameView {
        melds: g.melds.update(who, g.melds[who].push(entry)),
        actor: who as i8,
        last_draw: if called > 0 { called } else { g.last_draw },
        ..g
    };
    let hands = g.hands.update(who, remove_meld_spec(g.hands[who], mt, tiles1, called));
    lemma_remove_meld_ascending(g.hands[who], mt, tiles1, called);
    lemma_sorted_ascending(tiles1);
    lemma_decode_shape(m, who as i8);
    lemma_resolve_len(tiles0, tiles0.len() as int, guess, called, g.hands[who]);
    lemma_sorted_len(tiles1);
    lemma_meld_types_plain(mt);
    assert(meld_ok(entry));
    assert forall|q: int| 0 <= q < 4 implies ascending(#[trigger] hands[q]) by {
        if q != who {
            assert(hands[q] == g.hands[q]);
        }
    }
    assert forall|q: int, i: int| 0 <= q < 4 && 0 <= i < g1.melds[q].len() implies meld_ok(#[trigger] g1.melds[q][i]) by {
        if q != who {
            assert(g1.melds[q] == g.melds[q]);
        } else if i < g.melds[who].len() {
            assert(g1.melds[q][i] == g.melds[q][i]);
        } else {
            assert(g1.melds[q][i] == entry);
        }
    }
    assert(state_well_formed(g1));
    if mt == "chi"@ || mt == "pon"@ {
    } else if mt == "daiminkan"@ || mt == "shominkan"@ {
        lemma_kan_ordered(g1, who, mt, called);
    } else if mt == "ankan"@ {
        lemma_kan_ordered(g1, who, mt, tiles2[0]);
    } else if mt == "kakan"@ {
        lemma_kan_ordered(g1, who, mt, tiles2[3]);
    }
}

proof fn lemma_reset_ordered(g: GameView, a: Seq<(Seq<char>, Seq<char>)>)
    requires
        state_well_formed(g),
    ensures
        state_well_formed(reset_spec(g, a)),
{
    let g2 = reset_spec(g, a);
    assert forall|q: int| 0 <= q < 4 implies ascending(#[trigger] g2.hands[q]) by {
        assert(g2.hands[q] == dealt_hand(a, q));
        match attr_get(a, seat_key("hai"@, q)) {
            Some(h) => if h.len() > 0 {
                lemma_sorted_ascending(parsed_ints(split_spec(h, ',')));
            },
            None => {},
        }
    }
}

proof fn lemma_agari_ordered(g: GameView, a: Seq<(Seq<char>, Seq<char>)>)
    requires
        state_well_formed(g),
    ensures
        state_well_formed(agari_spec(g, a)),
{
    let g2 = agari_spec(g, a);
    assert forall|j: int| 0 <= j < g2.snapshots.len() implies row_well_formed(#[trigger] g2.snapshots[j]) by {
        if j < g.snapshots.len() {
            assert(g2.snapshots[j].hand_before == g.snapshots[j].hand_before);
            assert(g2.snapshots[j].melds == g.snapshots[j].melds);
        } else {
            lemma_plain_actions();
            assert(g2.snapshots[j].hand_before == g.hands);
            assert(g2.snapshots[j].melds == g.melds);
        }
    }
}

proof fn lemma_ryuukyoku_ordered(g: GameView, a: Seq<(Seq<char>, Seq<char>)>)
    requires
        state_well_formed(g),
    ensures
        state_well_formed(ryuukyoku_spec(g, a)),
{
    let g2 = ryuukyoku_spec(g, a);
    assert forall|j: int| 0 <= j < g2.snapshots.len() implies row_well_formed(#[trigger] g2.snapshots[j]) by {
        assert(g2.snapshots[j].hand_before == g.snapshots[j].hand_before);
        assert(g2.snapshots[j].melds == g.snapshots[j].melds);
    }
}

proof fn lemma_open_well_formed(g: GameView, pending: Option<(Seq<char>, i32)>, tag: Seq<char>, a: Seq<(Seq<char>, Seq<char>)>)
    requires
        state_well_formed(g),
    ensures
        state_well_formed(open_spec(g, pending, tag, a).0),
{
    if tag_ok(tag) {
        let (pfx, to) = split_tag_spec(tag);
        if pfx == 'g' && tag == "go"@ {
        } else if pfx == 'u' && tag == "un"@ {
        } else if pfx == 't' && tag == "taikyoku"@ {
        } else if pfx == 'i' && tag == "init"@ {
            lemma_reset_ordered(g, a);
        } else if (pfx == 't' || pfx == 'u' || pfx == 'v' || pfx == 'w') && to.is_some() {
            lemma_draw_ordered(g, draw_seat(pfx), to.unwrap() as i32);
        } else if (pfx == 'd' || pfx == 'e' || pfx == 'f' || pfx == 'g') && to.is_some() {
            lemma_discard_ordered(g, pending, discard_seat(pfx), to.unwrap() as i32);
        } else if pfx == 'n' {
            let who = attr_i8(a, "who"@, 0);
            if 0 <= who <= 3 {
                let m = attr_int(a, "m"@, 0, false, 0, u32::MAX as int) as u32;
                lemma_meld_ordered(g, pending, who as int, m);
            }
        } else if pfx == 'r' && "reach"@.is_prefix_of(tag) {
        } else if pfx == 'd' && tag == "dora"@ {
        } else if pfx == 'a' && tag == "agari"@ {
            lemma_agari_ordered(g, a);
        } else if pfx == 'r' && tag == "ryuukyoku"@ {
            lemma_ryuukyoku_ordered(g, a);
        }
    }
}

proof fn lemma_run_well_formed(g: GameView, pending: Option<(Seq<char>, i32)>, evs: Seq<XmlEvent>)
    requires
        state_well_formed(g),
    ensures
        run_spec(g, pending, evs) matches Ok(rows) ==> forall|j: int| 0 <= j < rows.len() ==> row_well_formed(#[trigger] rows[j]),
    decreases evs.len(),
{
    if evs.len() > 0 {
        let (g2, p2, f) = step_spec(g, pending, evs[0]);
        match evs[0] {
            XmlEvent::Open { name, attrs } => lemma_open_well_formed(g, pending, name@, attr_views(attrs@)),
            _ => {},
        }
        lemma_run_well_formed(g2, p2, evs.drop_first());
    }
}

/// In every row of a log, each seat's hand is in ascending order, each meld
/// has three or four tiles in ascending order and a type free of JSON
/// punctuation, and a chi, pon or open kan row has the called tile as its
/// drawn tile.
pub proof fn law_rows_well_formed(game_id: Seq<char>, evs: Seq<XmlEvent>)
    ensures
        run_spec(init_view(game_id), None, evs) matches Ok(rows) ==> forall|j: int| 0 <= j < rows.len()
            ==> row_well_formed(#[trigger] rows[j]),
{
    lemma_run_well_formed(init_view(game_id), None, evs);
}

/// A plain discard (no call pending) by seat `p` writes one row and adds the
/// tile to that seat's river, and to no other: the row's drawn tile is the
/// tile last drawn, it is a tsumogiri exactly when the discarded tile is
/// that drawn tile, and the river's new flag is the row's tsumogiri mark (so
/// a tile discarded from the hand is flagged `false`).
pub proof fn law_discard_river(g: GameView, p: int, tile: i32)
    requires
        wf(g),
        0 <= p < 4,
    ensures
        ({
            let g2 = discard_spec(g, None, p, tile);
            let s = g2.snapshots.last();
            &&& g2.snapshots.len() == g.snapshots.len() + 1
            &&& s.actor == p
            &&& s.discard_tile == tile
            &&& s.drawn_tile == g.last_draw
            &&& s.is_tsumogiri == (s.drawn_tile == s.discard_tile)
            &&& g2.rivers[p] == g.rivers[p].push(s.discard_tile)
            &&& g2.river_tsumo[p] == g.river_tsumo[p].push(s.is_tsumogiri)
            &&& forall|q: int| 0 <= q < 4 && q != p ==> g2.rivers[q] == g.rivers[q] && g2.river_tsumo[q] == g.river_tsumo[q]
        }),
{
}

} // verus!
