use mahjong_analytics::parser::parse_game_xml;
use mahjong_analytics::snapshot::MeldEntry;
use mahjong_analytics::table::ConversionResult;
use mahjong_analytics::viz::board::closed_kan_faces;
use mahjong_analytics::viz::view::{instance_name, meld_type_cn, oya_wind_cn, round_end_cn, seat_cn, ViewState};

const HAI0: &str = "0,4,8,12,16,20,24,28,32,36,40,44,48";

fn three_rows() -> Vec<mahjong_analytics::snapshot::Snapshot> {
    let xml = format!(
        "<mjloggm><INIT seed=\"0,0,0,0,0,7\" ten=\"250,250,250,250\" oya=\"0\" hai0=\"{HAI0}\"/>\
         <T52/><D52/><U53/><E53/><V54/><F54/></mjloggm>"
    );
    parse_game_xml(&xml, "v").unwrap()
}

#[test]
fn viewer_starts_empty() {
    let v = ViewState::default();
    assert!(v.snapshots.is_empty());
    assert_eq!(v.idx, 0);
    assert_eq!(v.path, "");
    assert!(v.error.is_none());
    assert_eq!(v.jump_seq, "");
}

#[test]
fn viewer_loads_and_reports() {
    let mut v = ViewState::default();
    v.loaded("a.parquet".to_string(), Ok(three_rows()));
    assert_eq!(v.snapshots.len(), 3);
    assert_eq!(v.path, "a.parquet");
    assert!(v.error.is_none());

    v.loaded("b.parquet".to_string(), Ok(Vec::new()));
    assert!(v.snapshots.is_empty());
    assert_eq!(v.error.as_deref(), Some("No snapshots found in file."));

    v.loaded("c.parquet".to_string(), Err("File has 0 rows.".to_string()));
    assert!(v.snapshots.is_empty());
    assert_eq!(v.error.as_deref(), Some("Failed to load: File has 0 rows."));
    assert_eq!(v.path, "c.parquet");
}

#[test]
fn viewer_steps_within_the_rows() {
    let mut v = ViewState::default();
    v.loaded("a".to_string(), Ok(three_rows()));
    v.step_back();
    assert_eq!(v.idx, 0);
    v.step_forward();
    v.step_forward();
    assert_eq!(v.idx, 2);
    v.step_forward();
    assert_eq!(v.idx, 2);
    assert_eq!(v.current().seq, 2);
    v.go_first();
    assert_eq!(v.idx, 0);
    v.go_last();
    assert_eq!(v.idx, 2);
    v.step_back();
    assert_eq!(v.idx, 1);

    let mut e = ViewState::default();
    e.go_last();
    e.step_forward();
    assert_eq!(e.idx, 0);
}

#[test]
fn viewer_jumps_to_a_seq() {
    let mut v = ViewState::default();
    v.loaded("a".to_string(), Ok(three_rows()));
    v.jump_seq = "1".to_string();
    v.jump();
    assert_eq!(v.idx, 1);
    v.jump_seq = "-5".to_string();
    v.jump();
    assert_eq!(v.idx, 0);
    v.jump_seq = "+2".to_string();
    v.jump();
    assert_eq!(v.idx, 2);
    // no row that far: stays
    v.jump_seq = "9".to_string();
    v.jump();
    assert_eq!(v.idx, 2);
    // not a number: stays
    v.jump_seq = "x1".to_string();
    v.jump();
    assert_eq!(v.idx, 2);
    v.jump_seq = " 1".to_string();
    v.jump();
    assert_eq!(v.idx, 2);
}

#[test]
fn panel_labels() {
    assert_eq!(oya_wind_cn(0), "东");
    assert_eq!(oya_wind_cn(3), "北");
    assert_eq!(oya_wind_cn(6), "西");
    assert_eq!(oya_wind_cn(-1), "北");
    assert_eq!(seat_cn(0), "自家");
    assert_eq!(seat_cn(2), "対面");
    assert_eq!(meld_type_cn("chi"), "吃");
    assert_eq!(meld_type_cn("daiminkan"), "大明杠");
    assert_eq!(meld_type_cn("kakan"), "加杠");
    assert_eq!(meld_type_cn("nuki"), "nuki");
    assert_eq!(round_end_cn(0), "流局");
    assert_eq!(round_end_cn(2), "荣和终局");
    assert_eq!(round_end_cn(-1), "?");
    assert_eq!(instance_name(53), "5p");
    assert_eq!(instance_name(-1), "-");
}

#[test]
fn closed_kan_shows_two_backs() {
    let k = MeldEntry { meld_type: "ankan".to_string(), tiles: vec![4, 5, 6, 7], called_tile: 0, from_player: -1, discard_n: 0, called_pos: -1 };
    assert_eq!(closed_kan_faces(&k), Some([-1, 4, 5, -1]));
    let p = MeldEntry { meld_type: "pon".to_string(), tiles: vec![4, 5, 6], called_tile: 5, from_player: 1, discard_n: 0, called_pos: 1 };
    assert_eq!(closed_kan_faces(&p), None);
    let short = MeldEntry { meld_type: "ankan".to_string(), tiles: vec![4, 5, 6], called_tile: 0, from_player: -1, discard_n: 0, called_pos: -1 };
    assert_eq!(closed_kan_faces(&short), None);
}

#[test]
fn conversion_result_starts_empty() {
    let r = ConversionResult::empty();
    assert_eq!(r.len(), 0);
    assert!(r.is_empty());
}
