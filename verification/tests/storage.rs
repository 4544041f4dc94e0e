use mahjong_analytics::columns::{rows_from_columns, snapshot_columns};
use mahjong_analytics::frame::{build_snapshot_df, convert_xml, snapshots_from_frame};
use mahjong_analytics::json::{json_melds, meld_json_readable, parse_meld_json};
use mahjong_analytics::parser::parse_game_xml;
use mahjong_analytics::snapshot::{MeldEntry, Snapshot};
use polars::prelude::{NamedFrom, Series};

fn meld(t: &str, tiles: Vec<i32>, called: i32, from: i8, n: i32, pos: i8) -> MeldEntry {
    MeldEntry { meld_type: t.to_string(), tiles, called_tile: called, from_player: from, discard_n: n, called_pos: pos }
}

fn same_meld(a: &MeldEntry, b: &MeldEntry) -> bool {
    a.meld_type == b.meld_type
        && a.tiles == b.tiles
        && a.called_tile == b.called_tile
        && a.from_player == b.from_player
        && a.discard_n == b.discard_n
        && a.called_pos == b.called_pos
}

fn same_melds(a: &[MeldEntry], b: &[MeldEntry]) -> bool {
    a.len() == b.len() && a.iter().zip(b.iter()).all(|(x, y)| same_meld(x, y))
}

fn same_row(a: &Snapshot, b: &Snapshot) -> bool {
    a.game_id == b.game_id
        && a.seq == b.seq
        && a.honba == b.honba
        && a.oya == b.oya
        && a.turns == b.turns
        && a.actor == b.actor
        && a.hand_before == b.hand_before
        && a.river_p0 == b.river_p0
        && a.river_p1 == b.river_p1
        && a.river_p2 == b.river_p2
        && a.river_p3 == b.river_p3
        && a.river_tsumo_p0 == b.river_tsumo_p0
        && a.river_tsumo_p1 == b.river_tsumo_p1
        && a.river_tsumo_p2 == b.river_tsumo_p2
        && a.river_tsumo_p3 == b.river_tsumo_p3
        && same_melds(&a.melds_p0, &b.melds_p0)
        && same_melds(&a.melds_p1, &b.melds_p1)
        && same_melds(&a.melds_p2, &b.melds_p2)
        && same_melds(&a.melds_p3, &b.melds_p3)
        && a.scores == b.scores
        && a.riichi == b.riichi
        && a.riichi_turn == b.riichi_turn
        && a.riichi_tile == b.riichi_tile
        && a.dora_indicators == b.dora_indicators
        && a.wall_remaining == b.wall_remaining
        && a.riichi_sticks == b.riichi_sticks
        && a.action_type == b.action_type
        && a.drawn_tile == b.drawn_tile
        && a.called_tile == b.called_tile
        && a.discard_tile == b.discard_tile
        && a.is_tsumogiri == b.is_tsumogiri
        && a.round_end_kind == b.round_end_kind
        && a.round_winner == b.round_winner
        && a.round_point_delta == b.round_point_delta
        && a.round_tenpai_count == b.round_tenpai_count
        && a.agari_han_ids == b.agari_han_ids
        && a.agari_han == b.agari_han
        && a.agari_fu == b.agari_fu
        && a.agari_points == b.agari_points
        && a.agari_from == b.agari_from
        && a.agari_ura_dora == b.agari_ura_dora
}

const LOG: &str = "<mjloggm ver=\"2.3\"><GO type=\"169\" lobby=\"0\"/>\
    <INIT seed=\"0,0,0,0,0,7\" ten=\"250,250,250,250\" oya=\"0\" \
     hai0=\"0,1,2,4,8,12,16,20,24,28,32,36,40\" hai1=\"9,13,21,25,29,33,37,41,45,49,53,57,61\"/>\
    <T5/><D5/><N who=\"1\" m=\"3076\"/><E61/><T64/><REACH who=\"0\" step=\"1\"/><D64/>\
    <REACH who=\"0\" ten=\"240,250,250,250\" step=\"2\"/>\
    <AGARI machi=\"57\" ten=\"30,2000,0\" yaku=\"1,1,0,1\" who=\"0\" fromWho=\"1\" sc=\"240,-20,250,20,250,0,250,0\" owari=\"1\"/>\
    </mjloggm>";

#[test]
fn meld_json_text() {
    let ms = vec![meld("chi", vec![5, 9, 13], 5, 0, 0, 0), meld("ankan", vec![4, 5, 6, 7], 0, -1, 3, -1)];
    assert_eq!(
        json_melds(&ms),
        "[{\"type\":\"chi\",\"tiles\":[5,9,13],\"called\":5,\"from\":0,\"discard_n\":0,\"pos\":0},\
         {\"type\":\"ankan\",\"tiles\":[4,5,6,7],\"called\":0,\"from\":-1,\"discard_n\":3,\"pos\":-1}]"
    );
    assert_eq!(json_melds(&vec![]), "[]");
}

#[test]
fn meld_json_reads_back() {
    let ms = vec![
        meld("chi", vec![5, 9, 13], 5, 0, 0, 0),
        meld("ankan", vec![4, 5, 6, 7], 0, -1, 3, -1),
        meld("pon", vec![], -7, 2, 11, 2),
    ];
    let back = parse_meld_json(&json_melds(&ms));
    assert!(same_melds(&back, &ms));
}

#[test]
fn meld_json_loses_a_single_tile_array() {
    let ms = vec![meld("pon", vec![12], 12, 1, 0, 1)];
    let back = parse_meld_json(&json_melds(&ms));
    assert_eq!(back.len(), 1);
    assert!(back[0].tiles.is_empty());
    assert_eq!(back[0].called_tile, 12);
}

#[test]
fn meld_json_edge_cases() {
    assert!(parse_meld_json("  []  ").is_empty());
    assert!(parse_meld_json("").is_empty());
    assert!(parse_meld_json(" \t\n").is_empty());
    let m = parse_meld_json(" [ { \"type\" : \"pon\" , \"from\":\"x\", \"extra\":1 } ] ");
    assert_eq!(m.len(), 1);
    assert_eq!(m[0].meld_type, "pon");
    assert_eq!(m[0].from_player, -1);
    assert_eq!(m[0].called_pos, -1);
    assert_eq!(m[0].called_tile, 0);
    assert!(meld_json_readable("[]"));
    assert!(meld_json_readable("  "));
    assert!(!meld_json_readable("x"));
    assert!(!meld_json_readable("[é"));
    assert!(meld_json_readable("[x]"));
}

#[test]
fn columns_read_back_the_rows() {
    let rows = parse_game_xml(LOG, "rt").unwrap();
    assert_eq!(rows.len(), 4);
    let cols = snapshot_columns(&rows);
    assert_eq!(cols.seq, vec![0, 1, 2, 3]);
    assert_eq!(cols.melds_json[1][1], "[{\"type\":\"chi\",\"tiles\":[5,9,13],\"called\":5,\"from\":0,\"discard_n\":0,\"pos\":0}]");
    assert_eq!(cols.turns[1], vec![1, 0, 0, 0]);
    let back = rows_from_columns(&cols).unwrap();
    assert_eq!(back.len(), rows.len());
    for (a, b) in back.iter().zip(rows.iter()) {
        assert!(same_row(a, b));
    }
}

#[test]
fn frame_round_trip() {
    let rows = parse_game_xml(LOG, "df").unwrap();
    let df = build_snapshot_df(&rows).unwrap();
    assert_eq!(df.height(), 4);
    assert_eq!(df.width(), 44);
    let back = snapshots_from_frame(&df).unwrap();
    assert_eq!(back.len(), rows.len());
    for (a, b) in back.iter().zip(rows.iter()) {
        assert!(same_row(a, b));
    }
}

#[test]
fn convert_reports_empty_logs() {
    assert_eq!(convert_xml("<mjloggm></mjloggm>", "x").unwrap_err(), "no snapshots produced from XML");
    assert!(convert_xml("<mjloggm><a></b></mjloggm>", "x").unwrap_err().starts_with("XML parse error: "));
    assert_eq!(convert_xml(LOG, "x").unwrap().height(), 4);
}

#[test]
fn frame_needs_rows_and_columns() {
    let empty = build_snapshot_df(&vec![]).unwrap();
    assert_eq!(snapshots_from_frame(&empty).unwrap_err(), "File has 0 rows.");
    let rows = parse_game_xml(LOG, "df").unwrap();
    let df = build_snapshot_df(&rows).unwrap().drop("actor").unwrap();
    let e = snapshots_from_frame(&df).unwrap_err();
    assert!(e.starts_with("Column 'actor' not found. Available: [\"game_id\", \"seq\""));
}

#[test]
fn frame_column_types_and_melds_are_checked() {
    let rows = parse_game_xml(LOG, "df").unwrap();
    let n = rows.len();
    let texts: Vec<&str> = vec!["x"; n];

    let mut wrong_type = build_snapshot_df(&rows).unwrap();
    wrong_type.with_column(Series::new("honba".into(), texts.as_slice())).unwrap();
    assert!(snapshots_from_frame(&wrong_type).is_err());

    let mut bad_melds = build_snapshot_df(&rows).unwrap();
    bad_melds.with_column(Series::new("melds_p2_json".into(), texts.as_slice())).unwrap();
    assert_eq!(snapshots_from_frame(&bad_melds).unwrap_err(), "unreadable meld list");
}
