//! The snapshot table in columns: one plain vector per stored column
//! (44 of them), as written to Parquet and read back by the viewer.
//!
//! Fixed four-seat values (`turns`, `scores`, `riichi`, …) are stored as
//! lists; melds as JSON text (see [`crate::json`]).

use vstd::prelude::*;

use crate::json::{json_melds, json_readable, json_text, law_json_round_trip, meld_json_readable, parse_meld_json, plain_meld, read_json};
use crate::parser::{XmlEvent, law_rows_well_formed, meld_ok, row_well_formed, run_spec};
use crate::snapshot::{MeldEntry, MeldView, Snapshot, SnapView, init_view, meld_views, snap_views};

verus! {

/// The stored columns of a snapshot table, row `j` of every column
/// belonging to the `j`-th snapshot.
pub struct SnapshotColumns {
    pub game_id: Vec<String>,
    pub seq: Vec<i32>,
    pub honba: Vec<i32>,
    pub oya: Vec<i8>,
    pub turns: Vec<Vec<i32>>,
    pub actor: Vec<i8>,
    /// `hand_before_p0` … `hand_before_p3`.
    pub hand_before: [Vec<Vec<i32>>; 4],
    /// `river_p0` … `river_p3`.
    pub river: [Vec<Vec<i32>>; 4],
    /// `river_tsumo_p0` … `river_tsumo_p3`.
    pub river_tsumo: [Vec<Vec<bool>>; 4],
    /// `melds_p0_json` … `melds_p3_json`.
    pub melds_json: [Vec<String>; 4],
    pub scores: Vec<Vec<i32>>,
    pub riichi: Vec<Vec<bool>>,
    pub riichi_turn: Vec<Vec<i32>>,
    pub riichi_tile: Vec<Vec<i32>>,
    pub dora_indicators: Vec<Vec<i32>>,
    pub wall_remaining: Vec<i32>,
    pub riichi_sticks: Vec<i32>,
    pub action_type: Vec<String>,
    pub drawn_tile: Vec<i32>,
    pub called_tile: Vec<i32>,
    pub discard_tile: Vec<i32>,
    pub is_tsumogiri: Vec<bool>,
    pub agari_han_ids: Vec<Vec<i32>>,
    pub agari_han: Vec<i32>,
    pub agari_fu: Vec<i32>,
    pub agari_points: Vec<i32>,
    pub agari_from: Vec<i8>,
    pub agari_ura_dora: Vec<Vec<i32>>,
    pub round_end_kind: Vec<i8>,
    pub round_winner: Vec<i8>,
    pub round_point_delta: Vec<Vec<i32>>,
    pub round_tenpai_count: Vec<i8>,
}

/// The plain-value view of the columns.
pub struct ColumnsView {
    pub game_id: Seq<Seq<char>>,
    pub seq: Seq<i32>,
    pub honba: Seq<i32>,
    pub oya: Seq<i8>,
    pub turns: Seq<Seq<i32>>,
    pub actor: Seq<i8>,
    pub hand_before: Seq<Seq<Seq<i32>>>,
    pub river: Seq<Seq<Seq<i32>>>,
    pub river_tsumo: Seq<Seq<Seq<bool>>>,
    pub melds_json: Seq<Seq<Seq<char>>>,
    pub scores: Seq<Seq<i32>>,
    pub riichi: Seq<Seq<bool>>,
    pub riichi_turn: Seq<Seq<i32>>,
    pub riichi_tile: Seq<Seq<i32>>,
    pub dora_indicators: Seq<Seq<i32>>,
    pub wall_remaining: Seq<i32>,
    pub riichi_sticks: Seq<i32>,
    pub action_type: Seq<Seq<char>>,
    pub drawn_tile: Seq<i32>,
    pub called_tile: Seq<i32>,
    pub discard_tile: Seq<i32>,
    pub is_tsumogiri: Seq<bool>,
    pub agari_han_ids: Seq<Seq<i32>>,
    pub agari_han: Seq<i32>,
    pub agari_fu: Seq<i32>,
    pub agari_points: Seq<i32>,
    pub agari_from: Seq<i8>,
    pub agari_ura_dora: Seq<Seq<i32>>,
    pub round_end_kind: Seq<i8>,
    pub round_winner: Seq<i8>,
    pub round_point_delta: Seq<Seq<i32>>,
    pub round_tenpai_count: Seq<i8>,
}

pub open spec fn strs(v: Seq<String>) -> Seq<Seq<char>> {
    v.map_values(|x: String| x@)
}

pub open spec fn ints(v: Seq<Vec<i32>>) -> Seq<Seq<i32>> {
    v.map_values(|x: Vec<i32>| x@)
}

pub open spec fn bools(v: Seq<Vec<bool>>) -> Seq<Seq<bool>> {
    v.map_values(|x: Vec<bool>| x@)
}

impl View for SnapshotColumns {
    type V = ColumnsView;

    open spec fn view(&self) -> ColumnsView {
        ColumnsView {
            game_id: strs(self.game_id@),
            seq: self.seq@,
            honba: self.honba@,
            oya: self.oya@,
            turns: ints(self.turns@),
            actor: self.actor@,
            hand_before: seq![ints(self.hand_before[0]@), ints(self.hand_before[1]@), ints(self.hand_before[2]@), ints(self.hand_before[3]@)],
            river: seq![ints(self.river[0]@), ints(self.river[1]@), ints(self.river[2]@), ints(self.river[3]@)],
            river_tsumo: seq![bools(self.river_tsumo[0]@), bools(self.river_tsumo[1]@), bools(self.river_tsumo[2]@), bools(self.river_tsumo[3]@)],
            melds_json: seq![strs(self.melds_json[0]@), strs(self.melds_json[1]@), strs(self.melds_json[2]@), strs(self.melds_json[3]@)],
            scores: ints(self.scores@),
            riichi: bools(self.riichi@),
            riichi_turn: ints(self.riichi_turn@),
            riichi_tile: ints(self.riichi_tile@),
            dora_indicators: ints(self.dora_indicators@),
            wall_remaining: self.wall_remaining@,
            riichi_sticks: self.riichi_sticks@,
            action_type: strs(self.action_type@),
            drawn_tile: self.drawn_tile@,
            called_tile: self.called_tile@,
            discard_tile: self.discard_tile@,
            is_tsumogiri: self.is_tsumogiri@,
            agari_han_ids: ints(self.agari_han_ids@),
            agari_han: self.agari_han@,
            agari_fu: self.agari_fu@,
            agari_points: self.agari_points@,
            agari_from: self.agari_from@,
            agari_ura_dora: ints(self.agari_ura_dora@),
            round_end_kind: self.round_end_kind@,
            round_winner: self.round_winner@,
            round_point_delta: ints(self.round_point_delta@),
            round_tenpai_count: self.round_tenpai_count@,
        }
    }
}

// ── writing ───────────────────────────────────────────────────

/// The columns of a list of rows: each column is the field of every row,
/// melds written as JSON.
pub open spec fn table_of(rows: Seq<SnapView>) -> ColumnsView {
    ColumnsView {
        game_id: rows.map_values(|r: SnapView| r.game_id),
        seq: rows.map_values(|r: SnapView| r.seq),
        honba: rows.map_values(|r: SnapView| r.honba),
        oya: rows.map_values(|r: SnapView| r.oya),
        turns: rows.map_values(|r: SnapView| r.turns),
        actor: rows.map_values(|r: SnapView| r.actor),
        hand_before: Seq::new(4, |p: int| rows.map_values(|r: SnapView| r.hand_before[p])),
        river: Seq::new(4, |p: int| rows.map_values(|r: SnapView| r.rivers[p])),
        river_tsumo: Seq::new(4, |p: int| rows.map_values(|r: SnapView| r.river_tsumo[p])),
        melds_json: Seq::new(4, |p: int| rows.map_values(|r: SnapView| json_text(r.melds[p]))),
        scores: rows.map_values(|r: SnapView| r.scores),
        riichi: rows.map_values(|r: SnapView| r.riichi),
        riichi_turn: rows.map_values(|r: SnapView| r.riichi_turn),
        riichi_tile: rows.map_values(|r: SnapView| r.riichi_tile),
        dora_indicators: rows.map_values(|r: SnapView| r.dora_indicators),
        wall_remaining: rows.map_values(|r: SnapView| r.wall_remaining),
        riichi_sticks: rows.map_values(|r: SnapView| r.riichi_sticks),
        action_type: rows.map_values(|r: SnapView| r.action_type),
        drawn_tile: rows.map_values(|r: SnapView| r.drawn_tile),
        called_tile: rows.map_values(|r: SnapView| r.called_tile),
        discard_tile: rows.map_values(|r: SnapView| r.discard_tile),
        is_tsumogiri: rows.map_values(|r: SnapView| r.is_tsumogiri),
        agari_han_ids: rows.map_values(|r: SnapView| r.agari_han_ids),
        agari_han: rows.map_values(|r: SnapView| r.agari_han),
        agari_fu: rows.map_values(|r: SnapView| r.agari_fu),
        agari_points: rows.map_values(|r: SnapView| r.agari_points),
        agari_from: rows.map_values(|r: SnapView| r.agari_from),
        agari_ura_dora: rows.map_values(|r: SnapView| r.agari_ura_dora),
        round_end_kind: rows.map_values(|r: SnapView| r.round_end_kind),
        round_winner: rows.map_values(|r: SnapView| r.round_winner),
        round_point_delta: rows.map_values(|r: SnapView| r.round_point_delta),
        round_tenpai_count: rows.map_values(|r: SnapView| r.round_tenpai_count),
    }
}

/// The four values as a list.
fn list4_i32(a: &[i32; 4]) -> (r: Vec<i32>)
    ensures
        r@ == a@,
{
    let mut r: Vec<i32> = Vec::new();
    r.push(a[0]);
    r.push(a[1]);
    r.push(a[2]);
    r.push(a[3]);
    assert(r@ =~= a@);
    r
}

/// The four flags as a list.
fn list4_bool(a: &[bool; 4]) -> (r: Vec<bool>)
    ensures
        r@ == a@,
{
    let mut r: Vec<bool> = Vec::new();
    r.push(a[0]);
    r.push(a[1]);
    r.push(a[2]);
    r.push(a[3]);
    assert(r@ =~= a@);
    r
}

/// A copy of a tile list.
fn copy_ints(v: &Vec<i32>) -> (r: Vec<i32>)
    ensures
        r@ == v@,
{
    let r = v.clone();
    assert(r@ =~= v@);
    r
}

/// A copy of a flag list.
fn copy_bools(v: &Vec<bool>) -> (r: Vec<bool>)
    ensures
        r@ == v@,
{
    let r = v.clone();
    assert(r@ =~= v@);
    r
}

/// Empty columns.
fn empty_columns() -> (c: SnapshotColumns)
    ensures
        c@ == table_of(Seq::empty()),
{
    let c = SnapshotColumns {
        game_id: Vec::new(),
        seq: Vec::new(),
        honba: Vec::new(),
        oya: Vec::new(),
        turns: Vec::new(),
        actor: Vec::new(),
        hand_before: [Vec::new(), Vec::new(), Vec::new(), Vec::new()],
        river: [Vec::new(), Vec::new(), Vec::new(), Vec::new()],
        river_tsumo: [Vec::new(), Vec::new(), Vec::new(), Vec::new()],
        melds_json: [Vec::new(), Vec::new(), Vec::new(), Vec::new()],
        scores: Vec::new(),
        riichi: Vec::new(),
        riichi_turn: Vec::new(),
        riichi_tile: Vec::new(),
        dora_indicators: Vec::new(),
        wall_remaining: Vec::new(),
        riichi_sticks: Vec::new(),
        action_type: Vec::new(),
        drawn_tile: Vec::new(),
        called_tile: Vec::new(),
        discard_tile: Vec::new(),
        is_tsumogiri: Vec::new(),
        agari_han_ids: Vec::new(),
        agari_han: Vec::new(),
        agari_fu: Vec::new(),
        agari_points: Vec::new(),
        agari_from: Vec::new(),
        agari_ura_dora: Vec::new(),
        round_end_kind: Vec::new(),
        round_winner: Vec::new(),
        round_point_delta: Vec::new(),
        round_tenpai_count: Vec::new(),
    };
    proof {
        let e = table_of(Seq::<SnapView>::empty());
        assert(ints(Seq::<Vec<i32>>::empty()) =~= Seq::<Seq<i32>>::empty());
        assert(bools(Seq::<Vec<bool>>::empty()) =~= Seq::<Seq<bool>>::empty());
        assert(strs(Seq::<String>::empty()) =~= Seq::<Seq<char>>::empty());
        assert forall|p: int| 0 <= p < 4 implies #[trigger] e.hand_before[p] =~= Seq::<Seq<i32>>::empty() by {}
        assert forall|p: int| 0 <= p < 4 implies #[trigger] e.river[p] =~= Seq::<Seq<i32>>::empty() by {}
        assert forall|p: int| 0 <= p < 4 implies #[trigger] e.river_tsumo[p] =~= Seq::<Seq<bool>>::empty() by {}
        assert forall|p: int| 0 <= p < 4 implies #[trigger] e.melds_json[p] =~= Seq::<Seq<char>>::empty() by {}
        assert(c@.game_id =~= e.game_id);
        assert(c@.seq =~= e.seq);
        assert(c@.honba =~= e.honba);
        assert(c@.oya =~= e.oya);
        assert(c@.turns =~= e.turns);
        assert(c@.actor =~= e.actor);
        assert(c@.hand_before =~= e.hand_before);
        assert(c@.river =~= e.river);
        assert(c@.river_tsumo =~= e.river_tsumo);
        assert(c@.melds_json =~= e.melds_json);
        assert(c@.scores =~= e.scores);
        assert(c@.riichi =~= e.riichi);
        assert(c@.riichi_turn =~= e.riichi_turn);
        assert(c@.riichi_tile =~= e.riichi_tile);
        assert(c@.dora_indicators =~= e.dora_indicators);
        assert(c@.wall_remaining =~= e.wall_remaining);
        assert(c@.riichi_sticks =~= e.riichi_sticks);
        assert(c@.action_type =~= e.action_type);
        assert(c@.drawn_tile =~= e.drawn_tile);
        assert(c@.called_tile =~= e.called_tile);
        assert(c@.discard_tile =~= e.discard_tile);
        assert(c@.is_tsumogiri =~= e.is_tsumogiri);
        assert(c@.agari_han_ids =~= e.agari_han_ids);
        assert(c@.agari_han =~= e.agari_han);
        assert(c@.agari_fu =~= e.agari_fu);
        assert(c@.agari_points =~= e.agari_points);
        assert(c@.agari_from =~= e.agari_from);
        assert(c@.agari_ura_dora =~= e.agari_ura_dora);
        assert(c@.round_end_kind =~= e.round_end_kind);
        assert(c@.round_winner =~= e.round_winner);
        assert(c@.round_point_delta =~= e.round_point_delta);
        assert(c@.round_tenpai_count =~= e.round_tenpai_count);
        assert(c@ == e);
    }
    c
}

/// The columns with one more row.
pub open spec fn push_view(c: ColumnsView, r: SnapView) -> ColumnsView {
    ColumnsView {
        game_id: c.game_id.push(r.game_id),
        seq: c.seq.push(r.seq),
        honba: c.honba.push(r.honba),
        oya: c.oya.push(r.oya),
        actor: c.actor.push(r.actor),
        wall_remaining: c.wall_remaining.push(r.wall_remaining),
        riichi_sticks: c.riichi_sticks.push(r.riichi_sticks),
        drawn_tile: c.drawn_tile.push(r.drawn_tile),
        called_tile: c.called_tile.push(r.called_tile),
        discard_tile: c.discard_tile.push(r.discard_tile),
        is_tsumogiri: c.is_tsumogiri.push(r.is_tsumogiri),
        agari_han: c.agari_han.push(r.agari_han),
        agari_fu: c.agari_fu.push(r.agari_fu),
        agari_points: c.agari_points.push(r.agari_points),
        agari_from: c.agari_from.push(r.agari_from),
        round_end_kind: c.round_end_kind.push(r.round_end_kind),
        round_winner: c.round_winner.push(r.round_winner),
        round_tenpai_count: c.round_tenpai_count.push(r.round_tenpai_count),
        turns: c.turns.push(r.turns),
        scores: c.scores.push(r.scores),
        riichi_turn: c.riichi_turn.push(r.riichi_turn),
        riichi_tile: c.riichi_tile.push(r.riichi_tile),
        round_point_delta: c.round_point_delta.push(r.round_point_delta),
        riichi: c.riichi.push(r.riichi),
        dora_indicators: c.dora_indicators.push(r.dora_indicators),
        agari_han_ids: c.agari_han_ids.push(r.agari_han_ids),
        agari_ura_dora: c.agari_ura_dora.push(r.agari_ura_dora),
        action_type: c.action_type.push(r.action_type),
        hand_before: Seq::new(4, |p: int| c.hand_before[p].push(r.hand_before[p])),
        river: Seq::new(4, |p: int| c.river[p].push(r.rivers[p])),
        river_tsumo: Seq::new(4, |p: int| c.river_tsumo[p].push(r.river_tsumo[p])),
        melds_json: Seq::new(4, |p: int| c.melds_json[p].push(json_text(r.melds[p]))),
    }
}

proof fn lemma_table_push(rows: Seq<SnapView>, r: SnapView)
    ensures
        table_of(rows.push(r)) == push_view(table_of(rows), r),
{
    let t = table_of(rows.push(r));
    let u = push_view(table_of(rows), r);
    assert(t.game_id =~= u.game_id);
    assert(t.seq =~= u.seq);
    assert(t.honba =~= u.honba);
    assert(t.oya =~= u.oya);
    assert(t.actor =~= u.actor);
    assert(t.wall_remaining =~= u.wall_remaining);
    assert(t.riichi_sticks =~= u.riichi_sticks);
    assert(t.drawn_tile =~= u.drawn_tile);
    assert(t.called_tile =~= u.called_tile);
    assert(t.discard_tile =~= u.discard_tile);
    assert(t.is_tsumogiri =~= u.is_tsumogiri);
    assert(t.agari_han =~= u.agari_han);
    assert(t.agari_fu =~= u.agari_fu);
    assert(t.agari_points =~= u.agari_points);
    assert(t.agari_from =~= u.agari_from);
    assert(t.round_end_kind =~= u.round_end_kind);
    assert(t.round_winner =~= u.round_winner);
    assert(t.round_tenpai_count =~= u.round_tenpai_count);
    assert(t.turns =~= u.turns);
    assert(t.scores =~= u.scores);
    assert(t.riichi_turn =~= u.riichi_turn);
    assert(t.riichi_tile =~= u.riichi_tile);
    assert(t.round_point_delta =~= u.round_point_delta);
    assert(t.riichi =~= u.riichi);
    assert(t.dora_indicators =~= u.dora_indicators);
    assert(t.agari_han_ids =~= u.agari_han_ids);
    assert(t.agari_ura_dora =~= u.agari_ura_dora);
    assert(t.action_type =~= u.action_type);
    assert forall|p: int| 0 <= p < 4 implies #[trigger] t.hand_before[p] =~= u.hand_before[p] by {}
    assert(t.hand_before =~= u.hand_before);
    assert forall|p: int| 0 <= p < 4 implies #[trigger] t.river[p] =~= u.river[p] by {}
    assert(t.river =~= u.river);
    assert forall|p: int| 0 <= p < 4 implies #[trigger] t.river_tsumo[p] =~= u.river_tsumo[p] by {}
    assert(t.river_tsumo =~= u.river_tsumo);
    assert forall|p: int| 0 <= p < 4 implies #[trigger] t.melds_json[p] =~= u.melds_json[p] by {}
    assert(t.melds_json =~= u.melds_json);
}

/// Appends one row to every column.
#[verifier::rlimit(80)]
#[verifier::spinoff_prover]
fn push_row(c: &mut SnapshotColumns, s: &Snapshot, Ghost(rows): Ghost<Seq<SnapView>>)
    requires
        old(c)@ == table_of(rows),
    ensures
        final(c)@ == table_of(rows.push(s@)),
{
    let ghost c0 = c@;
    c.game_id.push(s.game_id.clone());
    c.seq.push(s.seq);
    c.honba.push(s.honba);
    c.oya.push(s.oya);
    c.actor.push(s.actor);
    c.wall_remaining.push(s.wall_remaining);
    c.riichi_sticks.push(s.riichi_sticks);
    c.drawn_tile.push(s.drawn_tile);
    c.called_tile.push(s.called_tile);
    c.discard_tile.push(s.discard_tile);
    c.is_tsumogiri.push(s.is_tsumogiri);
    c.agari_han.push(s.agari_han);
    c.agari_fu.push(s.agari_fu);
    c.agari_points.push(s.agari_points);
    c.agari_from.push(s.agari_from);
    c.round_end_kind.push(s.round_end_kind);
    c.round_winner.push(s.round_winner);
    c.round_tenpai_count.push(s.round_tenpai_count);
    c.turns.push(list4_i32(&s.turns));
    c.scores.push(list4_i32(&s.scores));
    c.riichi_turn.push(list4_i32(&s.riichi_turn));
    c.riichi_tile.push(list4_i32(&s.riichi_tile));
    c.round_point_delta.push(list4_i32(&s.round_point_delta));
    c.riichi.push(list4_bool(&s.riichi));
    c.dora_indicators.push(copy_ints(&s.dora_indicators));
    c.agari_han_ids.push(copy_ints(&s.agari_han_ids));
    c.agari_ura_dora.push(copy_ints(&s.agari_ura_dora));
    c.action_type.push(s.action_type.clone());
    c.hand_before[0].push(copy_ints(&s.hand_before[0]));
    c.hand_before[1].push(copy_ints(&s.hand_before[1]));
    c.hand_before[2].push(copy_ints(&s.hand_before[2]));
    c.hand_before[3].push(copy_ints(&s.hand_before[3]));
    c.river[0].push(copy_ints(&s.river_p0));
    c.river[1].push(copy_ints(&s.river_p1));
    c.river[2].push(copy_ints(&s.river_p2));
    c.river[3].push(copy_ints(&s.river_p3));
    c.river_tsumo[0].push(copy_bools(&s.river_tsumo_p0));
    c.river_tsumo[1].push(copy_bools(&s.river_tsumo_p1));
    c.river_tsumo[2].push(copy_bools(&s.river_tsumo_p2));
    c.river_tsumo[3].push(copy_bools(&s.river_tsumo_p3));
    c.melds_json[0].push(json_melds(&s.melds_p0));
    c.melds_json[1].push(json_melds(&s.melds_p1));
    c.melds_json[2].push(json_melds(&s.melds_p2));
    c.melds_json[3].push(json_melds(&s.melds_p3));
    proof {
        assert(c@.game_id =~= c0.game_id.push(s@.game_id));
        assert(c@.seq =~= c0.seq.push(s@.seq));
        assert(c@.honba =~= c0.honba.push(s@.honba));
        assert(c@.oya =~= c0.oya.push(s@.oya));
        assert(c@.actor =~= c0.actor.push(s@.actor));
        assert(c@.wall_remaining =~= c0.wall_remaining.push(s@.wall_remaining));
        assert(c@.riichi_sticks =~= c0.riichi_sticks.push(s@.riichi_sticks));
        assert(c@.drawn_tile =~= c0.drawn_tile.push(s@.drawn_tile));
        assert(c@.called_tile =~= c0.called_tile.push(s@.called_tile));
        assert(c@.discard_tile =~= c0.discard_tile.push(s@.discard_tile));
        assert(c@.is_tsumogiri =~= c0.is_tsumogiri.push(s@.is_tsumogiri));
        assert(c@.agari_han =~= c0.agari_han.push(s@.agari_han));
        assert(c@.agari_fu =~= c0.agari_fu.push(s@.agari_fu));
        assert(c@.agari_points =~= c0.agari_points.push(s@.agari_points));
        assert(c@.agari_from =~= c0.agari_from.push(s@.agari_from));
        assert(c@.round_end_kind =~= c0.round_end_kind.push(s@.round_end_kind));
        assert(c@.round_winner =~= c0.round_winner.push(s@.round_winner));
        assert(c@.round_tenpai_count =~= c0.round_tenpai_count.push(s@.round_tenpai_count));
        assert(c@.turns =~= c0.turns.push(s@.turns));
        assert(c@.scores =~= c0.scores.push(s@.scores));
        assert(c@.riichi_turn =~= c0.riichi_turn.push(s@.riichi_turn));
        assert(c@.riichi_tile =~= c0.riichi_tile.push(s@.riichi_tile));
        assert(c@.round_point_delta =~= c0.round_point_delta.push(s@.round_point_delta));
        assert(c@.riichi =~= c0.riichi.push(s@.riichi));
        assert(c@.dora_indicators =~= c0.dora_indicators.push(s@.dora_indicators));
        assert(c@.agari_han_ids =~= c0.agari_han_ids.push(s@.agari_han_ids));
        assert(c@.agari_ura_dora =~= c0.agari_ura_dora.push(s@.agari_ura_dora));
        assert(c@.action_type =~= c0.action_type.push(s@.action_type));
        assert forall|p: int| 0 <= p < 4 implies #[trigger] c@.hand_before[p] =~= c0.hand_before[p].push(s@.hand_before[p]) by {}
        assert(c@.hand_before =~= push_view(c0, s@).hand_before);
        assert forall|p: int| 0 <= p < 4 implies #[trigger] c@.river[p] =~= c0.river[p].push(s@.rivers[p]) by {}
        assert(c@.river =~= push_view(c0, s@).river);
        assert forall|p: int| 0 <= p < 4 implies #[trigger] c@.river_tsumo[p] =~= c0.river_tsumo[p].push(s@.river_tsumo[p]) by {}
        assert(c@.river_tsumo =~= push_view(c0, s@).river_tsumo);
        assert forall|p: int| 0 <= p < 4 implies #[trigger] c@.melds_json[p] =~= c0.melds_json[p].push(json_text(s@.melds[p])) by {}
        assert(c@.melds_json =~= push_view(c0, s@).melds_json);
        assert(c@ == push_view(c0, s@));
        lemma_table_push(rows, s@);
    }
}

/// The columns of a list of snapshots.
pub fn snapshot_columns(snaps: &Vec<Snapshot>) -> (c: SnapshotColumns)
    ensures
        c@ == table_of(snap_views(snaps@)),
{
    let ghost rows = snap_views(snaps@);
    let mut c = empty_columns();
    assert(rows.take(0) =~= Seq::<SnapView>::empty());
    let mut i: usize = 0;
    while i < snaps.len()
        invariant
            0 <= i <= snaps.len(),
            rows == snap_views(snaps@),
            c@ == table_of(rows.take(i as int)),
        decreases snaps.len() - i,
    {
        push_row(&mut c, &snaps[i], Ghost(rows.take(i as int)));
        assert(rows.take(i + 1) =~= rows.take(i as int).push(snaps@[i as int]@));
        i = i + 1;
    }
    assert(rows.take(snaps.len() as int) =~= rows);
    c
}

// ── reading ───────────────────────────────────────────────────

/// The first four values of a stored list (0 for missing ones).
pub open spec fn first_four_i32(v: Seq<i32>) -> Seq<i32> {
    Seq::new(4, |i: int| if i < v.len() { v[i] } else { 0i32 })
}

/// The first four flags of a stored list (`false` for missing ones).
pub open spec fn first_four_bool(v: Seq<bool>) -> Seq<bool> {
    Seq::new(4, |i: int| if i < v.len() { v[i] } else { false })
}

/// Every column has `n` rows.
pub open spec fn shaped(c: ColumnsView, n: int) -> bool {
    &&& c.game_id.len() == n
    &&& c.seq.len() == n
    &&& c.honba.len() == n
    &&& c.oya.len() == n
    &&& c.actor.len() == n
    &&& c.wall_remaining.len() == n
    &&& c.riichi_sticks.len() == n
    &&& c.drawn_tile.len() == n
    &&& c.called_tile.len() == n
    &&& c.discard_tile.len() == n
    &&& c.is_tsumogiri.len() == n
    &&& c.agari_han.len() == n
    &&& c.agari_fu.len() == n
    &&& c.agari_points.len() == n
    &&& c.agari_from.len() == n
    &&& c.round_end_kind.len() == n
    &&& c.round_winner.len() == n
    &&& c.round_tenpai_count.len() == n
    &&& c.turns.len() == n
    &&& c.scores.len() == n
    &&& c.riichi_turn.len() == n
    &&& c.riichi_tile.len() == n
    &&& c.round_point_delta.len() == n
    &&& c.riichi.len() == n
    &&& c.dora_indicators.len() == n
    &&& c.agari_han_ids.len() == n
    &&& c.agari_ura_dora.len() == n
    &&& c.action_type.len() == n
    &&& c.hand_before.len() == 4
    &&& c.hand_before[0].len() == n && c.hand_before[1].len() == n && c.hand_before[2].len() == n && c.hand_before[3].len() == n
    &&& c.river.len() == 4
    &&& c.river[0].len() == n && c.river[1].len() == n && c.river[2].len() == n && c.river[3].len() == n
    &&& c.river_tsumo.len() == 4
    &&& c.river_tsumo[0].len() == n && c.river_tsumo[1].len() == n && c.river_tsumo[2].len() == n && c.river_tsumo[3].len() == n
    &&& c.melds_json.len() == 4
    &&& c.melds_json[0].len() == n && c.melds_json[1].len() == n && c.melds_json[2].len() == n && c.melds_json[3].len() == n
}

/// Every meld list of the first `n` rows can be read.
pub open spec fn melds_readable(c: ColumnsView, n: int) -> bool {
    forall|p: int, j: int| 0 <= p < 4 && 0 <= j < n ==> json_readable(#[trigger] c.melds_json[p][j])
}

/// Row `j` of the columns.
pub open spec fn row_of(c: ColumnsView, j: int) -> SnapView {
    SnapView {
        game_id: c.game_id[j],
        seq: c.seq[j],
        honba: c.honba[j],
        oya: c.oya[j],
        turns: first_four_i32(c.turns[j]),
        actor: c.actor[j],
        hand_before: Seq::new(4, |p: int| c.hand_before[p][j]),
        rivers: Seq::new(4, |p: int| c.river[p][j]),
        river_tsumo: Seq::new(4, |p: int| c.river_tsumo[p][j]),
        melds: Seq::new(4, |p: int| read_json(c.melds_json[p][j])),
        scores: first_four_i32(c.scores[j]),
        riichi: first_four_bool(c.riichi[j]),
        riichi_turn: first_four_i32(c.riichi_turn[j]),
        riichi_tile: first_four_i32(c.riichi_tile[j]),
        dora_indicators: c.dora_indicators[j],
        wall_remaining: c.wall_remaining[j],
        riichi_sticks: c.riichi_sticks[j],
        action_type: c.action_type[j],
        drawn_tile: c.drawn_tile[j],
        called_tile: c.called_tile[j],
        discard_tile: c.discard_tile[j],
        is_tsumogiri: c.is_tsumogiri[j],
        round_end_kind: c.round_end_kind[j],
        round_winner: c.round_winner[j],
        round_point_delta: first_four_i32(c.round_point_delta[j]),
        round_tenpai_count: c.round_tenpai_count[j],
        agari_han_ids: c.agari_han_ids[j],
        agari_han: c.agari_han[j],
        agari_fu: c.agari_fu[j],
        agari_points: c.agari_points[j],
        agari_from: c.agari_from[j],
        agari_ura_dora: c.agari_ura_dora[j],
    }
}

/// The first four values of a list (0 for missing ones).
fn four_i32(v: &Vec<i32>) -> (r: [i32; 4])
    ensures
        r@ == first_four_i32(v@),
{
    let mut r = [0i32; 4];
    let mut i: usize = 0;
    while i < 4 && i < v.len()
        invariant
            0 <= i <= 4,
            i <= v.len(),
            forall|k: int| 0 <= k < i ==> r@[k] == v@[k],
            forall|k: int| i <= k < 4 ==> r@[k] == 0,
        decreases 4 - i,
    {
        r[i] = v[i];
        i = i + 1;
    }
    assert(r@ =~= first_four_i32(v@));
    r
}

/// The first four flags of a list (`false` for missing ones).
fn four_bool(v: &Vec<bool>) -> (r: [bool; 4])
    ensures
        r@ == first_four_bool(v@),
{
    let mut r = [false; 4];
    let mut i: usize = 0;
    while i < 4 && i < v.len()
        invariant
            0 <= i <= 4,
            i <= v.len(),
            forall|k: int| 0 <= k < i ==> r@[k] == v@[k],
            forall|k: int| i <= k < 4 ==> r@[k] == false,
        decreases 4 - i,
    {
        r[i] = v[i];
        i = i + 1;
    }
    assert(r@ =~= first_four_bool(v@));
    r
}

/// Row `j` as a snapshot.
#[verifier::rlimit(80)]
#[verifier::spinoff_prover]
fn row_at(c: &SnapshotColumns, j: usize) -> (r: Snapshot)
    requires
        shaped(c@, c.seq.len() as int),
        j < c.seq.len(),
        forall|p: int| 0 <= p < 4 ==> json_readable(#[trigger] c@.melds_json[p][j as int]),
    ensures
        r@ == row_of(c@, j as int),
{
    let ghost cv = c@;
    assert(cv.melds_json[0] == strs(c.melds_json[0]@));
    assert(cv.melds_json[0][j as int] == c.melds_json[0]@[j as int]@);
    assert(cv.hand_before[0] == ints(c.hand_before[0]@));
    assert(cv.hand_before[0][j as int] == c.hand_before[0]@[j as int]@);
    assert(cv.river[0] == ints(c.river[0]@));
    assert(cv.river[0][j as int] == c.river[0]@[j as int]@);
    assert(cv.river_tsumo[0] == bools(c.river_tsumo[0]@));
    assert(cv.river_tsumo[0][j as int] == c.river_tsumo[0]@[j as int]@);
    let m0 = parse_meld_json(c.melds_json[0][j].as_str());
    assert(cv.melds_json[1] == strs(c.melds_json[1]@));
    assert(cv.melds_json[1][j as int] == c.melds_json[1]@[j as int]@);
    assert(cv.hand_before[1] == ints(c.hand_before[1]@));
    assert(cv.hand_before[1][j as int] == c.hand_before[1]@[j as int]@);
    assert(cv.river[1] == ints(c.river[1]@));
    assert(cv.river[1][j as int] == c.river[1]@[j as int]@);
    assert(cv.river_tsumo[1] == bools(c.river_tsumo[1]@));
    assert(cv.river_tsumo[1][j as int] == c.river_tsumo[1]@[j as int]@);
    let m1 = parse_meld_json(c.melds_json[1][j].as_str());
    assert(cv.melds_json[2] == strs(c.melds_json[2]@));
    assert(cv.melds_json[2][j as int] == c.melds_json[2]@[j as int]@);
    assert(cv.hand_before[2] == ints(c.hand_before[2]@));
    assert(cv.hand_before[2][j as int] == c.hand_before[2]@[j as int]@);
    assert(cv.river[2] == ints(c.river[2]@));
    assert(cv.river[2][j as int] == c.river[2]@[j as int]@);
    assert(cv.river_tsumo[2] == bools(c.river_tsumo[2]@));
    assert(cv.river_tsumo[2][j as int] == c.river_tsumo[2]@[j as int]@);
    let m2 = parse_meld_json(c.melds_json[2][j].as_str());
    assert(cv.melds_json[3] == strs(c.melds_json[3]@));
    assert(cv.melds_json[3][j as int] == c.melds_json[3]@[j as int]@);
    assert(cv.hand_before[3] == ints(c.hand_before[3]@));
    assert(cv.hand_before[3][j as int] == c.hand_before[3]@[j as int]@);
    assert(cv.river[3] == ints(c.river[3]@));
    assert(cv.river[3][j as int] == c.river[3]@[j as int]@);
    assert(cv.river_tsumo[3] == bools(c.river_tsumo[3]@));
    assert(cv.river_tsumo[3][j as int] == c.river_tsumo[3]@[j as int]@);
    let m3 = parse_meld_json(c.melds_json[3][j].as_str());
    let r = Snapshot {
        game_id: c.game_id[j].clone(),
        seq: c.seq[j],
        honba: c.honba[j],
        oya: c.oya[j],
        turns: four_i32(&c.turns[j]),
        actor: c.actor[j],
        hand_before: [copy_ints(&c.hand_before[0][j]), copy_ints(&c.hand_before[1][j]), copy_ints(&c.hand_before[2][j]), copy_ints(&c.hand_before[3][j])],
        river_p0: copy_ints(&c.river[0][j]),
        river_p1: copy_ints(&c.river[1][j]),
        river_p2: copy_ints(&c.river[2][j]),
        river_p3: copy_ints(&c.river[3][j]),
        river_tsumo_p0: copy_bools(&c.river_tsumo[0][j]),
        river_tsumo_p1: copy_bools(&c.river_tsumo[1][j]),
        river_tsumo_p2: copy_bools(&c.river_tsumo[2][j]),
        river_tsumo_p3: copy_bools(&c.river_tsumo[3][j]),
        melds_p0: m0,
        melds_p1: m1,
        melds_p2: m2,
        melds_p3: m3,
        scores: four_i32(&c.scores[j]),
        riichi: four_bool(&c.riichi[j]),
        riichi_turn: four_i32(&c.riichi_turn[j]),
        riichi_tile: four_i32(&c.riichi_tile[j]),
        dora_indicators: copy_ints(&c.dora_indicators[j]),
        wall_remaining: c.wall_remaining[j],
        riichi_sticks: c.riichi_sticks[j],
        action_type: c.action_type[j].clone(),
        drawn_tile: c.drawn_tile[j],
        called_tile: c.called_tile[j],
        discard_tile: c.discard_tile[j],
        is_tsumogiri: c.is_tsumogiri[j],
        round_end_kind: c.round_end_kind[j],
        round_winner: c.round_winner[j],
        round_point_delta: four_i32(&c.round_point_delta[j]),
        round_tenpai_count: c.round_tenpai_count[j],
        agari_han_ids: copy_ints(&c.agari_han_ids[j]),
        agari_han: c.agari_han[j],
        agari_fu: c.agari_fu[j],
        agari_points: c.agari_points[j],
        agari_from: c.agari_from[j],
        agari_ura_dora: copy_ints(&c.agari_ura_dora[j]),
    };
    proof {
        let w = row_of(cv, j as int);
        assert(r@.hand_before =~= w.hand_before);
        assert(r@.rivers =~= w.rivers);
        assert(r@.river_tsumo =~= w.river_tsumo);
        assert(r@.melds =~= w.melds);
        assert(r@ == w);
    }
    r
}

/// Whether the meld lists of row `j` can be read.
fn row_readable(c: &SnapshotColumns, j: usize) -> (ok: bool)
    requires
        shaped(c@, c.seq.len() as int),
        j < c.seq.len(),
    ensures
        ok == forall|p: int| 0 <= p < 4 ==> json_readable(#[trigger] c@.melds_json[p][j as int]),
{
    let ghost cv = c@;
    assert(cv.melds_json[0] == strs(c.melds_json[0]@));
    assert(cv.melds_json[0][j as int] == c.melds_json[0]@[j as int]@);
    assert(cv.melds_json[1] == strs(c.melds_json[1]@));
    assert(cv.melds_json[1][j as int] == c.melds_json[1]@[j as int]@);
    assert(cv.melds_json[2] == strs(c.melds_json[2]@));
    assert(cv.melds_json[2][j as int] == c.melds_json[2]@[j as int]@);
    assert(cv.melds_json[3] == strs(c.melds_json[3]@));
    assert(cv.melds_json[3][j as int] == c.melds_json[3]@[j as int]@);
    let a = meld_json_readable(c.melds_json[0][j].as_str());
    let b = meld_json_readable(c.melds_json[1][j].as_str());
    let d = meld_json_readable(c.melds_json[2][j].as_str());
    let e = meld_json_readable(c.melds_json[3][j].as_str());
    proof {
        if !(a && b && d && e) {
            if !a {
                assert(!json_readable(cv.melds_json[0][j as int]));
            } else if !b {
                assert(!json_readable(cv.melds_json[1][j as int]));
            } else if !d {
                assert(!json_readable(cv.melds_json[2][j as int]));
            } else {
                assert(!json_readable(cv.melds_json[3][j as int]));
            }
        }
    }
    a && b && d && e
}

/// The snapshots stored in the columns, one per row; an error when a
/// meld list cannot be read.
pub fn rows_from_columns(c: &SnapshotColumns) -> (r: Result<Vec<Snapshot>, String>)
    requires
        shaped(c@, c.seq.len() as int),
    ensures
        match r {
            Ok(rows) => melds_readable(c@, c.seq.len() as int)
                && snap_views(rows@) == Seq::new(c.seq.len() as nat, |j: int| row_of(c@, j)),
            Err(m) => !melds_readable(c@, c.seq.len() as int) && m@ == "unreadable meld list"@,
        },
{
    let n = c.seq.len();
    let mut rows: Vec<Snapshot> = Vec::new();
    let mut j: usize = 0;
    while j < n
        invariant
            0 <= j <= n,
            n == c.seq.len(),
            shaped(c@, n as int),
            melds_readable(c@, j as int),
            rows@.len() == j,
            forall|k: int| 0 <= k < j ==> #[trigger] rows@[k]@ == row_of(c@, k),
        decreases n - j,
    {
        if !row_readable(c, j) {
            return Err("unreadable meld list".to_string());
        }
        let r = row_at(c, j);
        rows.push(r);
        j = j + 1;
    }
    assert(snap_views(rows@) =~= Seq::new(n as nat, |k: int| row_of(c@, k)));
    Ok(rows)
}

// ── round trip ────────────────────────────────────────────────

/// Every meld of every seat of a snapshot has a type free of JSON
/// punctuation and a tile
/// list of any length but one.
pub open spec fn plain_melds(s: Snapshot) -> bool {
    forall|p: int, i: int| 0 <= p < 4 && 0 <= i < s@.melds[p].len() ==> plain_meld(#[trigger] s@.melds[p][i])
}

/// The columns written for a list of snapshots read back as the same
/// snapshots: every column has one entry per snapshot, every meld list can
/// be read, and row `j` is snapshot `j`. This holds where every meld has a
/// type free of JSON punctuation and no one-tile array.
pub proof fn law_storage_round_trip(snaps: Seq<Snapshot>)
    requires
        forall|j: int| 0 <= j < snaps.len() ==> plain_melds(#[trigger] snaps[j]),
    ensures
        shaped(table_of(snap_views(snaps)), snaps.len() as int),
        melds_readable(table_of(snap_views(snaps)), snaps.len() as int),
        forall|j: int| 0 <= j < snaps.len() ==> row_of(table_of(snap_views(snaps)), j) == #[trigger] snaps[j]@,
{
    let rows = snap_views(snaps);
    let c = table_of(rows);
    let n = snaps.len() as int;
    assert forall|p: int, j: int| 0 <= p < 4 && 0 <= j < n implies json_readable(#[trigger] c.melds_json[p][j]) by {
        let s = snaps[j];
        assert(rows[j] == s@);
        assert(c.melds_json[p][j] == json_text(s@.melds[p]));
        assert(plain_melds(s));
        assert forall|i: int| 0 <= i < s@.melds[p].len() implies plain_meld(#[trigger] s@.melds[p][i]) by {}
        law_json_round_trip(s@.melds[p]);
    }
    assert forall|j: int| 0 <= j < n implies row_of(c, j) == #[trigger] snaps[j]@ by {
        let s = snaps[j];
        let v = s@;
        assert(rows[j] == v);
        assert(plain_melds(s));
        assert forall|p: int| 0 <= p < 4 implies #[trigger] read_json(c.melds_json[p][j]) == v.melds[p] by {
            assert(c.melds_json[p][j] == json_text(v.melds[p]));
            assert forall|i: int| 0 <= i < v.melds[p].len() implies plain_meld(#[trigger] v.melds[p][i]) by {}
            law_json_round_trip(v.melds[p]);
        }
        let w = row_of(c, j);
        assert(w.turns =~= v.turns);
        assert(w.scores =~= v.scores);
        assert(w.riichi =~= v.riichi);
        assert(w.riichi_turn =~= v.riichi_turn);
        assert(w.riichi_tile =~= v.riichi_tile);
        assert(w.round_point_delta =~= v.round_point_delta);
        assert(w.hand_before =~= v.hand_before);
        assert(w.rivers =~= v.rivers);
        assert(w.river_tsumo =~= v.river_tsumo);
        assert(w.melds =~= v.melds);
    }
}

/// Every meld of the rows a log yields has a type free of JSON punctuation
/// and three or four
/// tiles.
pub(crate) proof fn lemma_log_rows_plain(game_id: Seq<char>, evs: Seq<XmlEvent>, snaps: Seq<Snapshot>)
    requires
        run_spec(init_view(game_id), None, evs) == Ok::<Seq<SnapView>, Seq<char>>(snap_views(snaps)),
    ensures
        forall|j: int| 0 <= j < snaps.len() ==> plain_melds(#[trigger] snaps[j]),
{
    law_rows_well_formed(game_id, evs);
    let rows = snap_views(snaps);
    let out = run_spec(init_view(game_id), None, evs);
    assert(out matches Ok(r) && r == rows);
    assert(forall|j: int| 0 <= j < rows.len() ==> row_well_formed(#[trigger] rows[j]));
    assert forall|j: int| 0 <= j < snaps.len() implies plain_melds(#[trigger] snaps[j]) by {
        assert(rows[j] == snaps[j]@);
        assert(row_well_formed(rows[j]));
        assert forall|p: int, i: int| 0 <= p < 4 && 0 <= i < snaps[j]@.melds[p].len()
            implies plain_meld(#[trigger] snaps[j]@.melds[p][i]) by {
            assert(meld_ok(rows[j].melds[p][i]));
        }
    }
}

/// The rows a log yields, written to columns, read back as themselves: no
/// condition is needed, since the parser only makes melds of three or four
/// tiles with types free of JSON punctuation.
pub proof fn law_log_storage_round_trip(game_id: Seq<char>, evs: Seq<XmlEvent>, snaps: Seq<Snapshot>)
    requires
        run_spec(init_view(game_id), None, evs) == Ok::<Seq<SnapView>, Seq<char>>(snap_views(snaps)),
    ensures
        shaped(table_of(snap_views(snaps)), snaps.len() as int),
        melds_readable(table_of(snap_views(snaps)), snaps.len() as int),
        forall|j: int| 0 <= j < snaps.len() ==> row_of(table_of(snap_views(snaps)), j) == #[trigger] snaps[j]@,
{
    lemma_log_rows_plain(game_id, evs, snaps);
    law_storage_round_trip(snaps);
}

} // verus!
