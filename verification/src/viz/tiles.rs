//! Tile names, colours, labels and image file names for display.
//!
//! Tenhou kind ids: 0-8 characters, 9-17 circles, 18-26 bamboo, 27-30
//! winds, 31-33 dragons; 34 / 37 / 40 are the red fives.

use vstd::prelude::*;

use crate::text::{append_chars, chars_eq_lit, chars_of, int_chars, int_text, string_of};

verus! {

/// Instance id (0..136) → kind id: the integer quotient by four.
pub fn instance_to_type(instance_id: i32) -> (r: i32)
    ensures
        instance_id >= 0 ==> r == instance_id / 4,
        instance_id < 0 ==> r == -((-instance_id) / 4),
{
    instance_id / 4
}

/// Display name of a kind id ("1m" … "Rd", "5mr"/"5pr"/"5sr" for the red
/// fives, "??" otherwise).
pub open spec fn tile_name_spec(id: i32) -> Seq<char> {
    if id == 0 {
        "1m"@
    } else if id == 1 {
        "2m"@
    } else if id == 2 {
        "3m"@
    } else if id == 3 {
        "4m"@
    } else if id == 4 {
        "5m"@
    } else if id == 5 {
        "6m"@
    } else if id == 6 {
        "7m"@
    } else if id == 7 {
        "8m"@
    } else if id == 8 {
        "9m"@
    } else if id == 9 {
        "1p"@
    } else if id == 10 {
        "2p"@
    } else if id == 11 {
        "3p"@
    } else if id == 12 {
        "4p"@
    } else if id == 13 {
        "5p"@
    } else if id == 14 {
        "6p"@
    } else if id == 15 {
        "7p"@
    } else if id == 16 {
        "8p"@
    } else if id == 17 {
        "9p"@
    } else if id == 18 {
        "1s"@
    } else if id == 19 {
        "2s"@
    } else if id == 20 {
        "3s"@
    } else if id == 21 {
        "4s"@
    } else if id == 22 {
        "5s"@
    } else if id == 23 {
        "6s"@
    } else if id == 24 {
        "7s"@
    } else if id == 25 {
        "8s"@
    } else if id == 26 {
        "9s"@
    } else if id == 27 {
        "E"@
    } else if id == 28 {
        "S"@
    } else if id == 29 {
        "W"@
    } else if id == 30 {
        "N"@
    } else if id == 31 {
        "Wh"@
    } else if id == 32 {
        "Gr"@
    } else if id == 33 {
        "Rd"@
    } else if id == 34 {
        "5mr"@
    } else if id == 37 {
        "5pr"@
    } else if id == 40 {
        "5sr"@
    } else {
        "??"@
    }
}

/// Human-readable name of a kind id.
pub fn tile_name(type_id: i32) -> (r: &'static str)
    ensures
        r@ == tile_name_spec(type_id),
{
    match type_id {
        0 => "1m",
        1 => "2m",
        2 => "3m",
        3 => "4m",
        4 => "5m",
        5 => "6m",
        6 => "7m",
        7 => "8m",
        8 => "9m",
        9 => "1p",
        10 => "2p",
        11 => "3p",
        12 => "4p",
        13 => "5p",
        14 => "6p",
        15 => "7p",
        16 => "8p",
        17 => "9p",
        18 => "1s",
        19 => "2s",
        20 => "3s",
        21 => "4s",
        22 => "5s",
        23 => "6s",
        24 => "7s",
        25 => "8s",
        26 => "9s",
        27 => "E",
        28 => "S",
        29 => "W",
        30 => "N",
        31 => "Wh",
        32 => "Gr",
        33 => "Rd",
        34 => "5mr",
        37 => "5pr",
        40 => "5sr",
        _ => "??",
    }
}

/// Background colour of a tile face in the text fallback, by suit:
/// characters dark red, circles dark blue, bamboo dark green, winds grey,
/// then white / green / red for the dragons, mid grey for anything else.
pub open spec fn tile_rgb_spec(id: i32) -> (u8, u8, u8) {
    if (0 <= id <= 8) || id == 34 {
        (180, 60, 40)
    } else if (9 <= id <= 17) || id == 37 {
        (30, 70, 160)
    } else if (18 <= id <= 26) || id == 40 {
        (20, 130, 60)
    } else if 27 <= id <= 30 {
        (60, 60, 60)
    } else if id == 31 {
        (220, 220, 210)
    } else if id == 32 {
        (30, 140, 30)
    } else if id == 33 {
        (180, 30, 30)
    } else {
        (128, 128, 128)
    }
}

/// RGB components of the tile face colour of a kind id.
pub fn tile_rgb(id: i32) -> (r: (u8, u8, u8))
    ensures
        r == tile_rgb_spec(id),
{
    if (0 <= id && id <= 8) || id == 34 {
        (180, 60, 40)
    } else if (9 <= id && id <= 17) || id == 37 {
        (30, 70, 160)
    } else if (18 <= id && id <= 26) || id == 40 {
        (20, 130, 60)
    } else if 27 <= id && id <= 30 {
        (60, 60, 60)
    } else if id == 31 {
        (220, 220, 210)
    } else if id == 32 {
        (30, 140, 30)
    } else if id == 33 {
        (180, 30, 30)
    } else {
        (128, 128, 128)
    }
}

/// Whether the id is a red five.
pub fn is_red_dora(id: i32) -> (r: bool)
    ensures
        r == (id == 34 || id == 37 || id == 40),
{
    id == 34 || id == 37 || id == 40
}

/// Chinese label of an action type (unknown types unchanged).
pub open spec fn action_label_cn_spec(s: Seq<char>) -> Seq<char> {
    if s == "tsumogiri"@ {
        "摸切"@
    } else if s == "discard"@ {
        "手出"@
    } else if s == "reach"@ {
        "立直"@
    } else if s == "chi"@ {
        "吃"@
    } else if s == "pon"@ {
        "碰"@
    } else if s == "daiminkan"@ {
        "大明杠"@
    } else if s == "shominkan"@ {
        "小明杠"@
    } else if s == "ankan"@ {
        "暗杠"@
    } else if s == "kakan"@ {
        "加杠"@
    } else if s == "tsumo"@ {
        "自摸"@
    } else if s == "ron"@ {
        "荣和"@
    } else {
        s
    }
}

/// ASCII label of an action type (unknown types unchanged).
pub open spec fn action_label_spec(s: Seq<char>) -> Seq<char> {
    if s == "tsumogiri"@ {
        "tsumo-giri"@
    } else if s == "discard"@ {
        "tedashi"@
    } else if s == "reach"@ {
        "REACH"@
    } else if s == "chi"@ {
        "CHI"@
    } else if s == "pon"@ {
        "PON"@
    } else if s == "daiminkan"@ {
        "Daiminkan"@
    } else if s == "shominkan"@ {
        "Shominkan"@
    } else if s == "ankan"@ {
        "Ankan"@
    } else if s == "kakan"@ {
        "Kakan"@
    } else if s == "tsumo"@ {
        "TSUMO AGARI"@
    } else if s == "ron"@ {
        "RON AGARI"@
    } else {
        s
    }
}

/// Chinese label of an action type.
pub fn action_label_cn<'a>(s: &'a str) -> (r: &'a str)
    ensures
        r@ == action_label_cn_spec(s@),
{
    let c = chars_of(s);
    if chars_eq_lit(&c, "tsumogiri") {
        "摸切"
    } else if chars_eq_lit(&c, "discard") {
        "手出"
    } else if chars_eq_lit(&c, "reach") {
        "立直"
    } else if chars_eq_lit(&c, "chi") {
        "吃"
    } else if chars_eq_lit(&c, "pon") {
        "碰"
    } else if chars_eq_lit(&c, "daiminkan") {
        "大明杠"
    } else if chars_eq_lit(&c, "shominkan") {
        "小明杠"
    } else if chars_eq_lit(&c, "ankan") {
        "暗杠"
    } else if chars_eq_lit(&c, "kakan") {
        "加杠"
    } else if chars_eq_lit(&c, "tsumo") {
        "自摸"
    } else if chars_eq_lit(&c, "ron") {
        "荣和"
    } else {
        s
    }
}

/// ASCII label of an action type.
pub fn action_label<'a>(s: &'a str) -> (r: &'a str)
    ensures
        r@ == action_label_spec(s@),
{
    let c = chars_of(s);
    if chars_eq_lit(&c, "tsumogiri") {
        "tsumo-giri"
    } else if chars_eq_lit(&c, "discard") {
        "tedashi"
    } else if chars_eq_lit(&c, "reach") {
        "REACH"
    } else if chars_eq_lit(&c, "chi") {
        "CHI"
    } else if chars_eq_lit(&c, "pon") {
        "PON"
    } else if chars_eq_lit(&c, "daiminkan") {
        "Daiminkan"
    } else if chars_eq_lit(&c, "shominkan") {
        "Shominkan"
    } else if chars_eq_lit(&c, "ankan") {
        "Ankan"
    } else if chars_eq_lit(&c, "kakan") {
        "Kakan"
    } else if chars_eq_lit(&c, "tsumo") {
        "TSUMO AGARI"
    } else if chars_eq_lit(&c, "ron") {
        "RON AGARI"
    } else {
        s
    }
}

/// Base label of a seat.
pub open spec fn seat_base(i: usize) -> Seq<char> {
    if i == 0 {
        "P0(Self)"@
    } else if i == 1 {
        "P1(Right)"@
    } else if i == 2 {
        "P2(Across)"@
    } else {
        "P3(Left)"@
    }
}

/// Seat label, marked with `*` when the seat is the actor (the seat number
/// compared as `i as i8`).
pub fn seat_label(i: usize, actor: i8) -> (r: String)
    ensures
        r@ == (if i as i8 == actor { seq!['*'] + seat_base(i) } else { seat_base(i) }),
{
    let base = match i {
        0 => "P0(Self)",
        1 => "P1(Right)",
        2 => "P2(Across)",
        _ => "P3(Left)",
    };
    if i as i8 == actor {
        let mut v: Vec<char> = Vec::new();
        v.push('*');
        let b = chars_of(base);
        append_chars(&mut v, &b);
        string_of(&v)
    } else {
        base.to_string()
    }
}

/// Image file name of a tile id in the tile-art set (the red fives use the
/// ordinary five; unknown ids use their decimal number).
pub open spec fn tile_file_name_spec(id: i32) -> Seq<char> {
    if id == 0 {
        "1mjp.png"@
    } else if id == 1 {
        "2mjp.png"@
    } else if id == 2 {
        "3mjp.png"@
    } else if id == 3 {
        "4mjp.png"@
    } else if id == 4 {
        "5mjp.png"@
    } else if id == 5 {
        "6mjp.png"@
    } else if id == 6 {
        "7mjp.png"@
    } else if id == 7 {
        "8mjp.png"@
    } else if id == 8 {
        "9mjp.png"@
    } else if id == 9 {
        "1p.png"@
    } else if id == 10 {
        "2p.png"@
    } else if id == 11 {
        "3p.png"@
    } else if id == 12 {
        "4p.png"@
    } else if id == 13 {
        "5p.png"@
    } else if id == 14 {
        "6p.png"@
    } else if id == 15 {
        "7p.png"@
    } else if id == 16 {
        "8p.png"@
    } else if id == 17 {
        "9p.png"@
    } else if id == 18 {
        "1sjp.png"@
    } else if id == 19 {
        "2s.png"@
    } else if id == 20 {
        "3s.png"@
    } else if id == 21 {
        "4s.png"@
    } else if id == 22 {
        "5s.png"@
    } else if id == 23 {
        "6s.png"@
    } else if id == 24 {
        "7s.png"@
    } else if id == 25 {
        "8s.png"@
    } else if id == 26 {
        "9s.png"@
    } else if id == 27 {
        "东jp.png"@
    } else if id == 28 {
        "南jp.png"@
    } else if id == 29 {
        "西jp.png"@
    } else if id == 30 {
        "北jp.png"@
    } else if id == 31 {
        "白jp.png"@
    } else if id == 32 {
        "发jp.png"@
    } else if id == 33 {
        "中jp.png"@
    } else if id == 34 {
        "5mjp.png"@
    } else if id == 37 {
        "5p.png"@
    } else if id == 40 {
        "5s.png"@
    } else {
        int_text(id as int) + ".png"@
    }
}

/// Tile id → image file name.
pub fn tile_filename(id: i32) -> (r: String)
    ensures
        r@ == tile_file_name_spec(id),
{
    let known: &str = match id {
        0 => "1mjp.png",
        1 => "2mjp.png",
        2 => "3mjp.png",
        3 => "4mjp.png",
        4 => "5mjp.png",
        5 => "6mjp.png",
        6 => "7mjp.png",
        7 => "8mjp.png",
        8 => "9mjp.png",
        9 => "1p.png",
        10 => "2p.png",
        11 => "3p.png",
        12 => "4p.png",
        13 => "5p.png",
        14 => "6p.png",
        15 => "7p.png",
        16 => "8p.png",
        17 => "9p.png",
        18 => "1sjp.png",
        19 => "2s.png",
        20 => "3s.png",
        21 => "4s.png",
        22 => "5s.png",
        23 => "6s.png",
        24 => "7s.png",
        25 => "8s.png",
        26 => "9s.png",
        27 => "东jp.png",
        28 => "南jp.png",
        29 => "西jp.png",
        30 => "北jp.png",
        31 => "白jp.png",
        32 => "发jp.png",
        33 => "中jp.png",
        34 => "5mjp.png",
        37 => "5p.png",
        40 => "5s.png",
        _ => "",
    };
    if (0 <= id && id <= 33) || id == 34 || id == 37 || id == 40 {
        known.to_string()
    } else {
        let mut v = int_chars(id as i64);
        let ext = chars_of(".png");
        append_chars(&mut v, &ext);
        string_of(&v)
    }
}

/// Id of the tile back texture.
pub const BACK_TILE_ID: i32 = -1;

/// The digits of the ranks, and the suit letters.
pub open spec fn rank_digits() -> Seq<char> {
    "123456789"@
}

pub open spec fn suit_letters() -> Seq<char> {
    "mps"@
}

/// The honours in kind order: east, south, west, north, white, green, red.
pub open spec fn honour_chars() -> Seq<char> {
    "东南西北白发中"@
}

proof fn lemma_file_shape(id: i32)
    requires
        0 <= id <= 33,
    ensures
        tile_file_name_spec(id).len() >= 2,
        id < 27 ==> tile_file_name_spec(id)[0] == rank_digits()[(id as int) % 9] && tile_file_name_spec(id)[1] == suit_letters()[(id as int) / 9],
        id >= 27 ==> tile_file_name_spec(id) == seq![honour_chars()[id - 27]] + "jp.png"@,
{
    reveal_strlit("123456789");
    reveal_strlit("mps");
    reveal_strlit("东南西北白发中");
    reveal_strlit("jp.png");
    if id == 0 {
        reveal_strlit("1mjp.png");
    } else if id == 1 {
        reveal_strlit("2mjp.png");
    } else if id == 2 {
        reveal_strlit("3mjp.png");
    } else if id == 3 {
        reveal_strlit("4mjp.png");
    } else if id == 4 {
        reveal_strlit("5mjp.png");
    } else if id == 5 {
        reveal_strlit("6mjp.png");
    } else if id == 6 {
        reveal_strlit("7mjp.png");
    } else if id == 7 {
        reveal_strlit("8mjp.png");
    } else if id == 8 {
        reveal_strlit("9mjp.png");
    } else if id == 9 {
        reveal_strlit("1p.png");
    } else if id == 10 {
        reveal_strlit("2p.png");
    } else if id == 11 {
        reveal_strlit("3p.png");
    } else if id == 12 {
        reveal_strlit("4p.png");
    } else if id == 13 {
        reveal_strlit("5p.png");
    } else if id == 14 {
        reveal_strlit("6p.png");
    } else if id == 15 {
        reveal_strlit("7p.png");
    } else if id == 16 {
        reveal_strlit("8p.png");
    } else if id == 17 {
        reveal_strlit("9p.png");
    } else if id == 18 {
        reveal_strlit("1sjp.png");
    } else if id == 19 {
        reveal_strlit("2s.png");
    } else if id == 20 {
        reveal_strlit("3s.png");
    } else if id == 21 {
        reveal_strlit("4s.png");
    } else if id == 22 {
        reveal_strlit("5s.png");
    } else if id == 23 {
        reveal_strlit("6s.png");
    } else if id == 24 {
        reveal_strlit("7s.png");
    } else if id == 25 {
        reveal_strlit("8s.png");
    } else if id == 26 {
        reveal_strlit("9s.png");
    } else if id == 27 {
        reveal_strlit("东jp.png");
    } else if id == 28 {
        reveal_strlit("南jp.png");
    } else if id == 29 {
        reveal_strlit("西jp.png");
    } else if id == 30 {
        reveal_strlit("北jp.png");
    } else if id == 31 {
        reveal_strlit("白jp.png");
    } else if id == 32 {
        reveal_strlit("发jp.png");
    } else if id == 33 {
        reveal_strlit("中jp.png");
    }
}

/// Each of the 34 tile kinds has an image file of its own: a suited kind's
/// file name starts with its rank digit and its suit letter (`m`, `p`, `s`),
/// an honour's is its character (east, south, west, north, white, green,
/// red, in kind order) followed by `jp.png`; so different kinds never share
/// a file.
pub proof fn law_tile_files(a: i32, b: i32)
    requires
        0 <= a <= 33,
        0 <= b <= 33,
    ensures
        a < 27 ==> tile_file_name_spec(a)[0] == rank_digits()[(a as int) % 9] && tile_file_name_spec(a)[1] == suit_letters()[(a as int) / 9],
        a >= 27 ==> tile_file_name_spec(a) == seq![honour_chars()[a - 27]] + "jp.png"@,
        a != b ==> tile_file_name_spec(a) != tile_file_name_spec(b),
{
    reveal_strlit("123456789");
    reveal_strlit("mps");
    reveal_strlit("东南西北白发中");
    reveal_strlit("jp.png");
    lemma_file_shape(a);
    lemma_file_shape(b);
    if a != b && tile_file_name_spec(a) == tile_file_name_spec(b) {
        let fa = tile_file_name_spec(a);
        assert(fa[0] == tile_file_name_spec(b)[0]);
        assert(fa[1] == tile_file_name_spec(b)[1]);
        if a >= 27 {
            assert(fa[0] == honour_chars()[a - 27]);
        }
        if b >= 27 {
            assert(fa[0] == honour_chars()[b - 27]);
        }
    }
}

} // verus!
