//! Decision snapshots: one row per decision of a player (discard, call,
//! riichi, kan, win) with the full board at that moment and the outcome of
//! the round it belongs to.
//!
//! Rivers are plain tile lists (called tiles stay in place; the calls are
//! traced through the melds), wins get a row of their own per winner, and a
//! drawn round produces no extra row.

use vstd::prelude::*;

verus! {

// ── melds ─────────────────────────────────────────────────────

/// A declared meld (chi / pon / kan) and what it was called from.
#[derive(Debug, Default)]
pub struct MeldEntry {
    /// `"chi"`, `"pon"`, `"daiminkan"`, `"shominkan"`, `"ankan"` or `"kakan"`.
    pub meld_type: String,
    /// Tenhou instance ids of all tiles of the meld, sorted.
    pub tiles: Vec<i32>,
    /// Id of the called tile; 0 for closed kans and added kans.
    pub called_tile: i32,
    /// Seat the called tile came from (-1 for closed/added kans).
    pub from_player: i8,
    /// How many tiles the caller had discarded when the meld was made.
    pub discard_n: i32,
    /// Display position of the called tile (0 left, 1 middle, 2 right, -1 none).
    pub called_pos: i8,
}

/// The plain-value view of a meld.
pub struct MeldView {
    pub meld_type: Seq<char>,
    pub tiles: Seq<i32>,
    pub called_tile: i32,
    pub from_player: i8,
    pub discard_n: i32,
    pub called_pos: i8,
}

impl View for MeldEntry {
    type V = MeldView;

    open spec fn view(&self) -> MeldView {
        MeldView {
            meld_type: self.meld_type@,
            tiles: self.tiles@,
            called_tile: self.called_tile,
            from_player: self.from_player,
            discard_n: self.discard_n,
            called_pos: self.called_pos,
        }
    }
}

/// Views of a list of melds.
pub open spec fn meld_views(ms: Seq<MeldEntry>) -> Seq<MeldView> {
    ms.map_values(|m: MeldEntry| m@)
}

/// A copy of a meld.
pub fn copy_meld(m: &MeldEntry) -> (r: MeldEntry)
    ensures
        r@ == m@,
{
    MeldEntry {
        meld_type: m.meld_type.clone(),
        tiles: m.tiles.clone(),
        called_tile: m.called_tile,
        from_player: m.from_player,
        discard_n: m.discard_n,
        called_pos: m.called_pos,
    }
}

/// A copy of a list of melds.
pub fn copy_melds(ms: &Vec<MeldEntry>) -> (r: Vec<MeldEntry>)
    ensures
        meld_views(r@) == meld_views(ms@),
{
    let mut r: Vec<MeldEntry> = Vec::new();
    let mut i: usize = 0;
    while i < ms.len()
        invariant
            0 <= i <= ms.len(),
            meld_views(r@) == meld_views(ms@.take(i as int)),
        decreases ms.len() - i,
    {
        let m = copy_meld(&ms[i]);
        let ghost r0 = r@;
        r.push(m);
        assert(ms@.take(i + 1) =~= ms@.take(i as int).push(ms@[i as int]));
        assert(meld_views(r@) =~= meld_views(r0).push(m@));
        assert(meld_views(ms@.take(i + 1)) =~= meld_views(ms@.take(i as int)).push(ms@[i as int]@));
        i = i + 1;
    }
    assert(ms@.take(ms.len() as int) =~= ms@);
    r
}

// ── snapshot ──────────────────────────────────────────────────

/// One decision row: the board before the decision, the decision, and the
/// outcome of its round.
#[derive(Debug)]
pub struct Snapshot {
    /// Log id.
    pub game_id: String,
    /// Global row number, increasing across rounds.
    pub seq: i32,
    /// Honba (repeat counter).
    pub honba: i32,
    /// Dealer seat (0-3).
    pub oya: i8,
    /// Number of discards each seat has made.
    pub turns: [i32; 4],
    /// Seat making the decision.
    pub actor: i8,
    /// The four hands before the decision, each sorted.
    pub hand_before: [Vec<i32>; 4],
    /// Rivers in discard order (called tiles stay in place).
    pub river_p0: Vec<i32>,
    pub river_p1: Vec<i32>,
    pub river_p2: Vec<i32>,
    pub river_p3: Vec<i32>,
    /// For each river tile, whether it was discarded straight from the draw.
    pub river_tsumo_p0: Vec<bool>,
    pub river_tsumo_p1: Vec<bool>,
    pub river_tsumo_p2: Vec<bool>,
    pub river_tsumo_p3: Vec<bool>,
    /// Declared melds of each seat.
    pub melds_p0: Vec<MeldEntry>,
    pub melds_p1: Vec<MeldEntry>,
    pub melds_p2: Vec<MeldEntry>,
    pub melds_p3: Vec<MeldEntry>,
    /// Scores (in hundreds).
    pub scores: [i32; 4],
    /// Whether each seat has declared riichi.
    pub riichi: [bool; 4],
    /// Global row number of each seat's riichi (-1 = none).
    pub riichi_turn: [i32; 4],
    /// Each seat's riichi declaration tile (-1 = none).
    pub riichi_tile: [i32; 4],
    /// Dora indicators shown so far.
    pub dora_indicators: Vec<i32>,
    /// Tiles left in the live wall.
    pub wall_remaining: i32,
    /// Riichi sticks on the table.
    pub riichi_sticks: i32,
    /// `"tsumogiri"`, `"discard"`, `"reach"`, `"chi"`, `"pon"`,
    /// `"daiminkan"`, `"shominkan"`, `"ankan"`, `"kakan"`, `"tsumo"`, `"ron"`.
    pub action_type: String,
    /// Tile just drawn (the winning tile on tsumo); -1 = none.
    pub drawn_tile: i32,
    /// Tile called (chi/pon/open kan/ron); -1 = none.
    pub called_tile: i32,
    /// Tile discarded (the kan tile for closed/added kans); -1 = none.
    pub discard_tile: i32,
    /// Whether the discard is the tile just drawn.
    pub is_tsumogiri: bool,
    /// Round end: -1 in progress, 0 draw, 1 tsumo, 2 ron.
    pub round_end_kind: i8,
    /// Round winner (-1 = draw / in progress).
    pub round_winner: i8,
    /// Score change from this row to the end of the round.
    pub round_point_delta: [i32; 4],
    /// Seats in tenpai (or in riichi) at an exhaustive draw; -1 otherwise.
    pub round_tenpai_count: i8,
    /// Yaku ids of a win.
    pub agari_han_ids: Vec<i32>,
    /// Han of a win.
    pub agari_han: i32,
    /// Fu of a win.
    pub agari_fu: i32,
    /// Points of a win (without sticks and honba).
    pub agari_points: i32,
    /// Discarder on a ron; -1 on tsumo.
    pub agari_from: i8,
    /// Ura-dora indicators of a riichi win.
    pub agari_ura_dora: Vec<i32>,
}

impl Snapshot {
    /// The tsumogiri flags of a seat's river (seat 3 for any index above 2).
    pub fn river_tsumo_for(&self, idx: usize) -> (r: &Vec<bool>)
        ensures
            r@ == (if idx == 0 {
                self.river_tsumo_p0@
            } else if idx == 1 {
                self.river_tsumo_p1@
            } else if idx == 2 {
                self.river_tsumo_p2@
            } else {
                self.river_tsumo_p3@
            }),
    {
        match idx {
            0 => &self.river_tsumo_p0,
            1 => &self.river_tsumo_p1,
            2 => &self.river_tsumo_p2,
            _ => &self.river_tsumo_p3,
        }
    }

    /// A seat's river (seat 3 for any index above 2).
    pub fn river_for(&self, idx: usize) -> (r: &Vec<i32>)
        ensures
            r@ == (if idx == 0 {
                self.river_p0@
            } else if idx == 1 {
                self.river_p1@
            } else if idx == 2 {
                self.river_p2@
            } else {
                self.river_p3@
            }),
    {
        match idx {
            0 => &self.river_p0,
            1 => &self.river_p1,
            2 => &self.river_p2,
            _ => &self.river_p3,
        }
    }

    /// A seat's melds (seat 3 for any index above 2).
    pub fn melds_for(&self, idx: usize) -> (r: &Vec<MeldEntry>)
        ensures
            r@ == (if idx == 0 {
                self.melds_p0@
            } else if idx == 1 {
                self.melds_p1@
            } else if idx == 2 {
                self.melds_p2@
            } else {
                self.melds_p3@
            }),
    {
        match idx {
            0 => &self.melds_p0,
            1 => &self.melds_p1,
            2 => &self.melds_p2,
            _ => &self.melds_p3,
        }
    }
}

/// The plain-value view of a snapshot.
pub struct SnapView {
    pub game_id: Seq<char>,
    pub seq: i32,
    pub honba: i32,
    pub oya: i8,
    pub turns: Seq<i32>,
    pub actor: i8,
    pub hand_before: Seq<Seq<i32>>,
    pub rivers: Seq<Seq<i32>>,
    pub river_tsumo: Seq<Seq<bool>>,
    pub melds: Seq<Seq<MeldView>>,
    pub scores: Seq<i32>,
    pub riichi: Seq<bool>,
    pub riichi_turn: Seq<i32>,
    pub riichi_tile: Seq<i32>,
    pub dora_indicators: Seq<i32>,
    pub wall_remaining: i32,
    pub riichi_sticks: i32,
    pub action_type: Seq<char>,
    pub drawn_tile: i32,
    pub called_tile: i32,
    pub discard_tile: i32,
    pub is_tsumogiri: bool,
    pub round_end_kind: i8,
    pub round_winner: i8,
    pub round_point_delta: Seq<i32>,
    pub round_tenpai_count: i8,
    pub agari_han_ids: Seq<i32>,
    pub agari_han: i32,
    pub agari_fu: i32,
    pub agari_points: i32,
    pub agari_from: i8,
    pub agari_ura_dora: Seq<i32>,
}

impl View for Snapshot {
    type V = SnapView;

    open spec fn view(&self) -> SnapView {
        SnapView {
            game_id: self.game_id@,
            seq: self.seq,
            honba: self.honba,
            oya: self.oya,
            turns: self.turns@,
            actor: self.actor,
            hand_before: seq![self.hand_before[0]@, self.hand_before[1]@, self.hand_before[2]@, self.hand_before[3]@],
            rivers: seq![self.river_p0@, self.river_p1@, self.river_p2@, self.river_p3@],
            river_tsumo: seq![self.river_tsumo_p0@, self.river_tsumo_p1@, self.river_tsumo_p2@, self.river_tsumo_p3@],
            melds: seq![meld_views(self.melds_p0@), meld_views(self.melds_p1@), meld_views(self.melds_p2@), meld_views(self.melds_p3@)],
            scores: self.scores@,
            riichi: self.riichi@,
            riichi_turn: self.riichi_turn@,
            riichi_tile: self.riichi_tile@,
            dora_indicators: self.dora_indicators@,
            wall_remaining: self.wall_remaining,
            riichi_sticks: self.riichi_sticks,
            action_type: self.action_type@,
            drawn_tile: self.drawn_tile,
            called_tile: self.called_tile,
            discard_tile: self.discard_tile,
            is_tsumogiri: self.is_tsumogiri,
            round_end_kind: self.round_end_kind,
            round_winner: self.round_winner,
            round_point_delta: self.round_point_delta@,
            round_tenpai_count: self.round_tenpai_count,
            agari_han_ids: self.agari_han_ids@,
            agari_han: self.agari_han,
            agari_fu: self.agari_fu,
            agari_points: self.agari_points,
            agari_from: self.agari_from,
            agari_ura_dora: self.agari_ura_dora@,
        }
    }
}

/// Views of a list of snapshots.
pub open spec fn snap_views(ss: Seq<Snapshot>) -> Seq<SnapView> {
    ss.map_values(|s: Snapshot| s@)
}

// ── game state ────────────────────────────────────────────────

/// The state accumulated while reading one log.  Round-level fields are
/// reset at each `INIT`; game-level fields (players, ranks) persist.
pub struct GameState {
    // game level
    pub game_id: String,
    pub game_type: i32,
    pub lobby: i32,
    pub names: [String; 4],
    pub dans: [i32; 4],
    pub sexes: [String; 4],
    pub num_players: i32,
    // round level
    pub honba: i32,
    pub riichi_sticks: i32,
    pub scores: [i32; 4],
    /// Scores at the start of the round.
    pub round_start_scores: [i32; 4],
    pub oya: i8,
    pub dora_indicators: Vec<i32>,
    // per seat
    pub hands: [Vec<i32>; 4],
    pub rivers: [Vec<i32>; 4],
    pub river_tsumo: [Vec<bool>; 4],
    /// Global row number at which each river tile was discarded.
    pub river_seq: [Vec<i32>; 4],
    pub melds: [Vec<MeldEntry>; 4],
    pub riichi: [bool; 4],
    pub riichi_seq: [i32; 4],
    pub riichi_tile: [i32; 4],
    // current action
    /// Global row number (increasing across rounds).
    pub seq: i32,
    pub turns: [i32; 4],
    pub actor: i8,
    /// Last tile drawn (-1 = none).
    pub last_draw: i32,
    /// Seat whose next discard declares riichi (-1 = none).
    pub pending_reach_player: i8,
    // wall
    pub wall_remaining: i32,
    /// Whether the next draw comes from the dead wall (after a kan).
    pub next_draw_from_dead_wall: bool,
    // output
    pub snapshots: Vec<Snapshot>,
    /// Index of the first row of the current round.
    pub round_start_idx: usize,
}

/// The plain-value view of the game state.
pub struct GameView {
    pub game_id: Seq<char>,
    pub game_type: i32,
    pub lobby: i32,
    pub names: Seq<Seq<char>>,
    pub dans: Seq<i32>,
    pub sexes: Seq<Seq<char>>,
    pub num_players: i32,
    pub honba: i32,
    pub riichi_sticks: i32,
    pub scores: Seq<i32>,
    pub round_start_scores: Seq<i32>,
    pub oya: i8,
    pub dora_indicators: Seq<i32>,
    pub hands: Seq<Seq<i32>>,
    pub rivers: Seq<Seq<i32>>,
    pub river_tsumo: Seq<Seq<bool>>,
    pub river_seq: Seq<Seq<i32>>,
    pub melds: Seq<Seq<MeldView>>,
    pub riichi: Seq<bool>,
    pub riichi_seq: Seq<i32>,
    pub riichi_tile: Seq<i32>,
    pub seq: i32,
    pub turns: Seq<i32>,
    pub actor: i8,
    pub last_draw: i32,
    pub pending_reach_player: i8,
    pub wall_remaining: i32,
    pub next_draw_from_dead_wall: bool,
    pub snapshots: Seq<SnapView>,
    pub round_start_idx: int,
}

impl View for GameState {
    type V = GameView;

    open spec fn view(&self) -> GameView {
        GameView {
            game_id: self.game_id@,
            game_type: self.game_type,
            lobby: self.lobby,
            names: seq![self.names[0]@, self.names[1]@, self.names[2]@, self.names[3]@],
            dans: self.dans@,
            sexes: seq![self.sexes[0]@, self.sexes[1]@, self.sexes[2]@, self.sexes[3]@],
            num_players: self.num_players,
            honba: self.honba,
            riichi_sticks: self.riichi_sticks,
            scores: self.scores@,
            round_start_scores: self.round_start_scores@,
            oya: self.oya,
            dora_indicators: self.dora_indicators@,
            hands: seq![self.hands[0]@, self.hands[1]@, self.hands[2]@, self.hands[3]@],
            rivers: seq![self.rivers[0]@, self.rivers[1]@, self.rivers[2]@, self.rivers[3]@],
            river_tsumo: seq![self.river_tsumo[0]@, self.river_tsumo[1]@, self.river_tsumo[2]@, self.river_tsumo[3]@],
            river_seq: seq![self.river_seq[0]@, self.river_seq[1]@, self.river_seq[2]@, self.river_seq[3]@],
            melds: seq![meld_views(self.melds[0]@), meld_views(self.melds[1]@), meld_views(self.melds[2]@), meld_views(self.melds[3]@)],
            riichi: self.riichi@,
            riichi_seq: self.riichi_seq@,
            riichi_tile: self.riichi_tile@,
            seq: self.seq,
            turns: self.turns@,
            actor: self.actor,
            last_draw: self.last_draw,
            pending_reach_player: self.pending_reach_player,
            wall_remaining: self.wall_remaining,
            next_draw_from_dead_wall: self.next_draw_from_dead_wall,
            snapshots: snap_views(self.snapshots@),
            round_start_idx: self.round_start_idx as int,
        }
    }
}

/// The initial state for a log.
pub open spec fn init_view(game_id: Seq<char>) -> GameView {
    GameView {
        game_id: game_id,
        game_type: 0,
        lobby: 0,
        names: seq![Seq::<char>::empty(), Seq::<char>::empty(), Seq::<char>::empty(), Seq::<char>::empty()],
        dans: seq![0i32, 0i32, 0i32, 0i32],
        sexes: seq![Seq::<char>::empty(), Seq::<char>::empty(), Seq::<char>::empty(), Seq::<char>::empty()],
        num_players: 4,
        honba: 0,
        riichi_sticks: 0,
        scores: seq![250i32, 250i32, 250i32, 250i32],
        round_start_scores: seq![250i32, 250i32, 250i32, 250i32],
        oya: 0,
        dora_indicators: Seq::empty(),
        hands: seq![Seq::<i32>::empty(), Seq::<i32>::empty(), Seq::<i32>::empty(), Seq::<i32>::empty()],
        rivers: seq![Seq::<i32>::empty(), Seq::<i32>::empty(), Seq::<i32>::empty(), Seq::<i32>::empty()],
        river_tsumo: seq![Seq::<bool>::empty(), Seq::<bool>::empty(), Seq::<bool>::empty(), Seq::<bool>::empty()],
        river_seq: seq![Seq::<i32>::empty(), Seq::<i32>::empty(), Seq::<i32>::empty(), Seq::<i32>::empty()],
        melds: seq![Seq::<MeldView>::empty(), Seq::<MeldView>::empty(), Seq::<MeldView>::empty(), Seq::<MeldView>::empty()],
        riichi: seq![false, false, false, false],
        riichi_seq: seq![-1i32, -1i32, -1i32, -1i32],
        riichi_tile: seq![-1i32, -1i32, -1i32, -1i32],
        seq: 0,
        turns: seq![0i32, 0i32, 0i32, 0i32],
        actor: 0,
        last_draw: -1i32,
        pending_reach_player: -1i8,
        wall_remaining: 70,
        next_draw_from_dead_wall: false,
        snapshots: Seq::empty(),
        round_start_idx: 0,
    }
}


impl Default for GameState {
    /// A fresh game: no id, 250 hundred points per seat, empty hands and
    /// rivers, the dealer at seat 0 and 70 tiles in the live wall.
    fn default() -> (r: GameState)
        ensures
            r@ == init_view(Seq::empty()),
    {
        let r = GameState {
            game_id: String::new(),
            game_type: 0,
            lobby: 0,
            names: [String::new(), String::new(), String::new(), String::new()],
            dans: [0; 4],
            sexes: [String::new(), String::new(), String::new(), String::new()],
            num_players: 4,
            honba: 0,
            riichi_sticks: 0,
            scores: [250; 4],
            round_start_scores: [250; 4],
            oya: 0,
            dora_indicators: Vec::new(),
            hands: [Vec::new(), Vec::new(), Vec::new(), Vec::new()],
            rivers: [Vec::new(), Vec::new(), Vec::new(), Vec::new()],
            river_tsumo: [Vec::new(), Vec::new(), Vec::new(), Vec::new()],
            river_seq: [Vec::new(), Vec::new(), Vec::new(), Vec::new()],
            melds: [Vec::new(), Vec::new(), Vec::new(), Vec::new()],
            riichi: [false; 4],
            riichi_seq: [-1; 4],
            riichi_tile: [-1; 4],
            seq: 0,
            turns: [0; 4],
            actor: 0,
            last_draw: -1,
            pending_reach_player: -1,
            wall_remaining: 70,
            next_draw_from_dead_wall: false,
            snapshots: Vec::new(),
            round_start_idx: 0,
        };
        proof {
            let gi = init_view(Seq::empty());
            assert(meld_views(Seq::<MeldEntry>::empty()) =~= Seq::<MeldView>::empty());
            assert(snap_views(Seq::<Snapshot>::empty()) =~= Seq::<SnapView>::empty());
            assert(r@.names =~= gi.names);
            assert(r@.sexes =~= gi.sexes);
            assert(r@.dans =~= gi.dans);
            assert(r@.scores =~= gi.scores);
            assert(r@.round_start_scores =~= gi.round_start_scores);
            assert(r@.hands =~= gi.hands);
            assert(r@.rivers =~= gi.rivers);
            assert(r@.river_tsumo =~= gi.river_tsumo);
            assert(r@.river_seq =~= gi.river_seq);
            assert(r@.melds =~= gi.melds);
            assert(r@.riichi =~= gi.riichi);
            assert(r@.riichi_seq =~= gi.riichi_seq);
            assert(r@.riichi_tile =~= gi.riichi_tile);
            assert(r@.turns =~= gi.turns);
            assert(r@.snapshots =~= gi.snapshots);
            assert(r@.dora_indicators =~= gi.dora_indicators);
            assert(r@ == gi);
        }
        r
    }
}

} // verus!
