use mahjong_analytics::parser::parse_game_xml;
use mahjong_analytics::snapshot::MeldEntry;
use mahjong_analytics::viz::board::{collect_stolen, hand_display, meld_layout, stolen_positions};
use mahjong_analytics::viz::tiles::{
    action_label, action_label_cn, instance_to_type, is_red_dora, seat_label, tile_filename, tile_name, tile_rgb, BACK_TILE_ID,
};

fn meld(t: &str, tiles: Vec<i32>, called: i32, from: i8, pos: i8) -> MeldEntry {
    MeldEntry { meld_type: t.to_string(), tiles, called_tile: called, from_player: from, discard_n: 0, called_pos: pos }
}

#[test]
fn tile_names() {
    assert_eq!(instance_to_type(0), 0);
    assert_eq!(instance_to_type(135), 33);
    assert_eq!(instance_to_type(17), 4);
    assert_eq!(tile_name(0), "1m");
    assert_eq!(tile_name(13), "5p");
    assert_eq!(tile_name(26), "9s");
    assert_eq!(tile_name(27), "E");
    assert_eq!(tile_name(33), "Rd");
    assert_eq!(tile_name(34), "5mr");
    assert_eq!(tile_name(40), "5sr");
    assert_eq!(tile_name(35), "??");
    assert_eq!(tile_name(-1), "??");
}

#[test]
fn red_fives() {
    assert!(is_red_dora(34));
    assert!(is_red_dora(37));
    assert!(is_red_dora(40));
    assert!(!is_red_dora(4));
    assert!(!is_red_dora(35));
}

#[test]
fn colours_by_suit() {
    assert_eq!(tile_rgb(3), (180, 60, 40));
    assert_eq!(tile_rgb(34), (180, 60, 40));
    assert_eq!(tile_rgb(37), (30, 70, 160));
    assert_eq!(tile_rgb(20), (20, 130, 60));
    assert_eq!(tile_rgb(29), (60, 60, 60));
    assert_eq!(tile_rgb(31), (220, 220, 210));
    assert_eq!(tile_rgb(32), (30, 140, 30));
    assert_eq!(tile_rgb(33), (180, 30, 30));
    assert_eq!(tile_rgb(99), (128, 128, 128));
}

#[test]
fn action_labels() {
    assert_eq!(action_label_cn("tsumogiri"), "摸切");
    assert_eq!(action_label_cn("pon"), "碰");
    assert_eq!(action_label_cn("ron"), "荣和");
    assert_eq!(action_label_cn("other"), "other");
    assert_eq!(action_label("discard"), "tedashi");
    assert_eq!(action_label("tsumo"), "TSUMO AGARI");
    assert_eq!(action_label("kakan"), "Kakan");
    assert_eq!(action_label("xyz"), "xyz");
}

#[test]
fn seat_labels() {
    assert_eq!(seat_label(0, -1), "P0(Self)");
    assert_eq!(seat_label(1, 1), "*P1(Right)");
    assert_eq!(seat_label(2, 0), "P2(Across)");
    assert_eq!(seat_label(3, 3), "*P3(Left)");
    assert_eq!(seat_label(7, 3), "P3(Left)");
}

#[test]
fn tile_files() {
    assert_eq!(tile_filename(0), "1mjp.png");
    assert_eq!(tile_filename(9), "1p.png");
    assert_eq!(tile_filename(18), "1sjp.png");
    assert_eq!(tile_filename(19), "2s.png");
    assert_eq!(tile_filename(27), "东jp.png");
    assert_eq!(tile_filename(32), "发jp.png");
    assert_eq!(tile_filename(34), "5mjp.png");
    assert_eq!(tile_filename(37), "5p.png");
    assert_eq!(tile_filename(40), "5s.png");
    assert_eq!(tile_filename(99), "99.png");
    assert_eq!(tile_filename(-1), "-1.png");
    assert_eq!(BACK_TILE_ID, -1);
}

#[test]
fn stolen_tiles_from_melds() {
    let xml = "<mjloggm><INIT seed=\"0,0,0,0,0,7\" ten=\"250,250,250,250\" oya=\"0\" \
               hai1=\"9,13,20,24,28,32,36,40,44,48,52,56,60\"/>\
               <T5/><D5/><N who=\"1\" m=\"3076\"/><E60/></mjloggm>";
    let rows = parse_game_xml(xml, "s").unwrap();
    let snap = &rows[1];
    let stolen = collect_stolen(snap);
    assert_eq!(stolen, vec![(0usize, 5)]);
    assert_eq!(stolen_positions(&stolen, &snap.river_p0, 0), vec![0usize]);
    assert!(stolen_positions(&stolen, &snap.river_p1, 1).is_empty());
}

#[test]
fn stolen_positions_take_the_first_copy_once() {
    let stolen = vec![(2usize, 7), (2usize, 7), (1usize, 9), (2usize, 11), (2usize, 99)];
    let river = vec![3, 7, 11, 7];
    assert_eq!(stolen_positions(&stolen, &river, 2), vec![1usize, 2]);
}

#[test]
fn called_tile_slot_follows_the_source_seat() {
    let m = meld("pon", vec![8, 9, 10], 9, 1, 1);
    // from the seat to the right: rightmost
    assert_eq!(meld_layout(&m, 0), (2, [8, 10, 9]));
    // from across: middle
    assert_eq!(meld_layout(&m, 3), (1, [8, 9, 10]));
    // from the left: leftmost
    assert_eq!(meld_layout(&m, 2), (0, [9, 8, 10]));
    // a closed meld keeps its order
    let k = meld("ankan", vec![4, 5, 6], 0, -1, -1);
    assert_eq!(meld_layout(&k, 0), (1, [4, 5, 6]));
    let short = meld("chi", vec![4], 0, -1, -1);
    assert_eq!(meld_layout(&short, 0), (1, [4, -1, -1]));
}

#[test]
fn hand_with_the_drawn_tile_apart() {
    assert_eq!(hand_display(&[9, 3, 52, 1], 52, true), (vec![1, 3, 9, 52], 52));
    assert_eq!(hand_display(&[9, 3, 1], 52, true), (vec![1, 3, 9, 52], 52));
    assert_eq!(hand_display(&[9, 3, 3, 1], 3, true), (vec![1, 3, 9], 3));
    assert_eq!(hand_display(&[9, 3, 52, 1], 52, false), (vec![1, 3, 9, 52], -1));
    assert_eq!(hand_display(&[9, 3, 1], -1, true), (vec![1, 3, 9], -1));
}
