//! What the viewer keeps between frames (the loaded snapshots, the one
//! shown, the last error) and what its controls do to it, with the labels
//! of its side panel.  Drawing and input stay with the window around it.

use vstd::prelude::*;

use crate::snapshot::Snapshot;
use crate::text::{append_chars, chars_eq_lit, chars_of, parse_int, parse_int_spec, string_of};
use crate::viz::tiles::{instance_to_type, tile_name, tile_name_spec};

verus! {

/// The viewer's state.
pub struct ViewState {
    /// Snapshots of the loaded file.
    pub snapshots: Vec<Snapshot>,
    /// Index of the snapshot shown.
    pub idx: usize,
    /// The loaded file, as displayed.
    pub path: String,
    /// Why nothing is shown, if something went wrong.
    pub error: Option<String>,
    /// Text of the "Jump seq" box.
    pub jump_seq: String,
}

/// The text of an optional message.
pub open spec fn message(e: Option<String>) -> Option<Seq<char>> {
    match e {
        Some(m) => Some(m@),
        None => None,
    }
}

/// `t` is the first index of `snaps` whose `seq` is at least `target`.
pub open spec fn first_seq_at_least(snaps: Seq<Snapshot>, target: int, t: int) -> bool {
    &&& 0 <= t < snaps.len()
    &&& snaps[t].seq >= target
    &&& forall|q: int| 0 <= q < t ==> #[trigger] snaps[q].seq < target
}

/// Where the "Go" button leads from `idx`: the first snapshot whose `seq`
/// is at least the number typed, when the text is an `i32` and such a
/// snapshot exists; otherwise nowhere else.
pub open spec fn jump_target(snaps: Seq<Snapshot>, text: Seq<char>, idx: int) -> int {
    match parse_int_spec(text, true, i32::MIN as int, i32::MAX as int) {
        Some(target) => if exists|t: int| first_seq_at_least(snaps, target, t) {
            choose|t: int| first_seq_at_least(snaps, target, t)
        } else {
            idx
        },
        None => idx,
    }
}

/// The first index whose `seq` is at least `t`, if any.
fn first_at_least(snaps: &Vec<Snapshot>, t: i64) -> (r: Option<usize>)
    ensures
        match r {
            Some(p) => first_seq_at_least(snaps@, t as int, p as int)
                && p as int == choose|c: int| first_seq_at_least(snaps@, t as int, c),
            None => !exists|c: int| first_seq_at_least(snaps@, t as int, c),
        },
{
    let mut p: usize = 0;
    while p < snaps.len()
        invariant
            0 <= p <= snaps.len(),
            forall|q: int| 0 <= q < p ==> #[trigger] snaps@[q].seq < t,
        decreases snaps.len() - p,
    {
        if snaps[p].seq as i64 >= t {
            proof {
                let target = t as int;
                assert(first_seq_at_least(snaps@, target, p as int));
                let c = choose|c: int| first_seq_at_least(snaps@, target, c);
                if c < p {
                    assert(snaps@[c].seq < t);
                }
                if p < c {
                    assert(snaps@[p as int].seq < target);
                }
            }
            return Some(p);
        }
        p = p + 1;
    }
    proof {
        let target = t as int;
        if exists|c: int| first_seq_at_least(snaps@, target, c) {
            let c = choose|c: int| first_seq_at_least(snaps@, target, c);
            assert(snaps@[c].seq < t);
        }
    }
    None
}

impl ViewState {
    /// The index shown is 0 or that of a loaded snapshot.
    pub open spec fn wf(&self) -> bool {
        self.idx == 0 || self.idx < self.snapshots.len()
    }

    /// Everything but the index is as in `other`.
    pub open spec fn same_but_idx(&self, other: &ViewState) -> bool {
        &&& self.snapshots == other.snapshots
        &&& self.path == other.path
        &&& self.error == other.error
        &&& self.jump_seq == other.jump_seq
    }

    /// The state after opening `path`: the snapshots read from it, or the
    /// reason they could not be read.  The first snapshot is shown.
    pub fn loaded(&mut self, path: String, result: Result<Vec<Snapshot>, String>)
        ensures
            final(self).wf(),
            final(self).path == path,
            final(self).idx == 0,
            final(self).jump_seq == old(self).jump_seq,
            match result {
                Ok(s) => final(self).snapshots == s && message(final(self).error) == (if s.len() == 0 {
                    Some("No snapshots found in file."@)
                } else {
                    None::<Seq<char>>
                }),
                Err(e) => final(self).snapshots@.len() == 0 && message(final(self).error) == Some(
                    "Failed to load: "@ + e@,
                ),
            },
    {
        self.path = path;
        self.error = None;
        self.idx = 0;
        match result {
            Ok(s) => {
                self.snapshots = s;
                if self.snapshots.len() == 0 {
                    self.error = Some("No snapshots found in file.".to_string());
                }
            },
            Err(e) => {
                let mut v = chars_of("Failed to load: ");
                append_chars(&mut v, &chars_of(e.as_str()));
                self.error = Some(string_of(&v));
                self.snapshots = Vec::new();
            },
        }
    }

    /// One snapshot back ("◀ Prev", ←); the first stays.
    pub fn step_back(&mut self)
        requires
            old(self).wf(),
        ensures
            final(self).wf(),
            final(self).same_but_idx(old(self)),
            final(self).idx == (if old(self).idx > 0 { old(self).idx - 1 } else { 0 }),
    {
        self.idx = self.idx.saturating_sub(1);
    }

    /// One snapshot on ("Next ▶", →); the last stays.
    pub fn step_forward(&mut self)
        requires
            old(self).wf(),
        ensures
            final(self).wf(),
            final(self).same_but_idx(old(self)),
            final(self).idx == (if old(self).idx + 1 < old(self).snapshots.len() {
                old(self).idx + 1
            } else {
                old(self).idx as int
            }),
    {
        if self.idx + 1 < self.snapshots.len() {
            self.idx = self.idx + 1;
        }
    }

    /// To the first snapshot (Home).
    pub fn go_first(&mut self)
        requires
            old(self).wf(),
        ensures
            final(self).wf(),
            final(self).same_but_idx(old(self)),
            final(self).idx == 0,
    {
        if self.snapshots.len() == 0 {
            return;
        }
        self.idx = 0;
    }

    /// To the last snapshot (End); nowhere when nothing is loaded.
    pub fn go_last(&mut self)
        requires
            old(self).wf(),
        ensures
            final(self).wf(),
            final(self).same_but_idx(old(self)),
            final(self).idx == (if old(self).snapshots.len() > 0 {
                old(self).snapshots.len() - 1
            } else {
                old(self).idx as int
            }),
    {
        let n = self.snapshots.len();
        if n == 0 {
            return;
        }
        self.idx = n - 1;
    }

    /// The "Go" button: to the first snapshot whose `seq` is at least the
    /// number in the jump box.
    pub fn jump(&mut self)
        requires
            old(self).wf(),
        ensures
            final(self).wf(),
            final(self).same_but_idx(old(self)),
            final(self).idx == jump_target(old(self).snapshots@, old(self).jump_seq@, old(self).idx as int),
    {
        let text = chars_of(self.jump_seq.as_str());
        let parsed = parse_int(text.as_slice(), true, i32::MIN as i64, i32::MAX as i64);
        if let Some(t) = parsed {
            if let Some(p) = first_at_least(&self.snapshots, t) {
                self.idx = p;
            }
        }
    }

    /// The snapshot shown.
    pub fn current(&self) -> (r: &Snapshot)
        requires
            self.wf(),
            self.snapshots.len() > 0,
        ensures
            *r == self.snapshots@[self.idx as int],
    {
        &self.snapshots[self.idx]
    }
}

impl Default for ViewState {
    /// Nothing loaded.
    fn default() -> (r: Self)
        ensures
            r.wf(),
            r.snapshots@.len() == 0,
            r.idx == 0,
            r.path@ == Seq::<char>::empty(),
            r.error is None,
            r.jump_seq@ == Seq::<char>::empty(),
    {
        ViewState {
            snapshots: Vec::new(),
            idx: 0,
            path: String::new(),
            error: None,
            jump_seq: String::new(),
        }
    }
}

// ── panel labels ──────────────────────────────────────────────

/// 东 南 西 北 for the winds 0 to 3.
pub open spec fn wind_cn_spec(k: int) -> Seq<char> {
    if k == 0 {
        "东"@
    } else if k == 1 {
        "南"@
    } else if k == 2 {
        "西"@
    } else {
        "北"@
    }
}

/// The dealer's seat wind, by the seat number modulo four.
pub fn oya_wind_cn(oya: i8) -> (r: &'static str)
    ensures
        r@ == wind_cn_spec(oya as int % 4),
{
    let k: i16 = (oya as i16 + 128) % 4;
    assert(k as int == oya as int % 4);
    if k == 0 {
        "东"
    } else if k == 1 {
        "南"
    } else if k == 2 {
        "西"
    } else {
        "北"
    }
}

/// 自家 下家 対面 上家 for the seats 0 to 3.
pub open spec fn seat_cn_spec(k: int) -> Seq<char> {
    if k == 0 {
        "自家"@
    } else if k == 1 {
        "下家"@
    } else if k == 2 {
        "対面"@
    } else {
        "上家"@
    }
}

/// The relative seat name of a seat.
pub fn seat_cn(seat: i8) -> (r: &'static str)
    requires
        0 <= seat < 4,
    ensures
        r@ == seat_cn_spec(seat as int),
{
    if seat == 0 {
        "自家"
    } else if seat == 1 {
        "下家"
    } else if seat == 2 {
        "対面"
    } else {
        "上家"
    }
}

/// Chinese name of a meld type (other types unchanged).
pub open spec fn meld_type_cn_spec(t: Seq<char>) -> Seq<char> {
    if t == "chi"@ {
        "吃"@
    } else if t == "pon"@ {
        "碰"@
    } else if t == "daiminkan"@ {
        "大明杠"@
    } else if t == "ankan"@ {
        "暗杠"@
    } else if t == "kakan"@ {
        "加杠"@
    } else {
        t
    }
}

/// Chinese name of a meld type.
pub fn meld_type_cn<'a>(t: &'a str) -> (r: &'a str)
    ensures
        r@ == meld_type_cn_spec(t@),
{
    let c = chars_of(t);
    if chars_eq_lit(&c, "chi") {
        "吃"
    } else if chars_eq_lit(&c, "pon") {
        "碰"
    } else if chars_eq_lit(&c, "daiminkan") {
        "大明杠"
    } else if chars_eq_lit(&c, "ankan") {
        "暗杠"
    } else if chars_eq_lit(&c, "kakan") {
        "加杠"
    } else {
        t
    }
}

/// How a round ended: 流局 (draw), 自摸终局 (tsumo), 荣和终局 (ron), `?`.
pub open spec fn round_end_cn_spec(kind: i8) -> Seq<char> {
    if kind == 0 {
        "流局"@
    } else if kind == 1 {
        "自摸终局"@
    } else if kind == 2 {
        "荣和终局"@
    } else {
        "?"@
    }
}

/// The label of a round end kind.
pub fn round_end_cn(kind: i8) -> (r: &'static str)
    ensures
        r@ == round_end_cn_spec(kind),
{
    if kind == 0 {
        "流局"
    } else if kind == 1 {
        "自摸终局"
    } else if kind == 2 {
        "荣和终局"
    } else {
        "?"
    }
}

/// The name of a tile instance, `-` for none (a negative id).
pub fn instance_name(id: i32) -> (r: &'static str)
    ensures
        r@ == (if id >= 0 { tile_name_spec((id / 4) as i32) } else { "-"@ }),
{
    if id >= 0 {
        tile_name(instance_to_type(id))
    } else {
        "-"
    }
}

} // verus!
