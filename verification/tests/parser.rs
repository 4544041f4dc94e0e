use mahjong_analytics::parser::{parse_events, parse_game_xml, XmlEvent};
use mahjong_analytics::snapshot::GameState;

const HAI0: &str = "0,4,8,12,16,20,24,28,32,36,40,44,48";
const HAI1: &str = "1,5,9,13,17,21,25,29,33,37,41,45,49";
const HAI2: &str = "2,6,10,14,18,22,26,30,34,38,42,46,50";
const HAI3: &str = "3,7,11,15,19,23,27,31,35,39,43,47,51";

fn header() -> String {
    format!(
        "<mjloggm ver=\"2.3\"><GO type=\"169\" lobby=\"0\"/>\
         <UN n0=\"A\" n1=\"B\" n2=\"C\" n3=\"D\" dan=\"10,11,12,13\" rate=\"1500,1500,1500,1500\" sx=\"M,M,F,M\"/>\
         <TAIKYOKU oya=\"0\"/>\
         <INIT seed=\"0,1,2,1,2,3\" ten=\"250,250,250,250\" oya=\"0\" hai0=\"{HAI0}\" hai1=\"{HAI1}\" hai2=\"{HAI2}\" hai3=\"{HAI3}\"/>"
    )
}

#[test]
fn draw_and_discard_rows() {
    let xml = format!(
        "{}<T52/><D52/><U53/><E1/>\
         <RYUUKYOKU ba=\"1,2\" sc=\"250,0,250,0,250,0,250,0\" hai0=\"{HAI0}\"/></mjloggm>",
        header()
    );
    let rows = parse_game_xml(&xml, "g1").unwrap();
    assert_eq!(rows.len(), 2);

    let r0 = &rows[0];
    assert_eq!(r0.game_id, "g1");
    assert_eq!(r0.seq, 0);
    assert_eq!(r0.actor, 0);
    assert_eq!(r0.action_type, "tsumogiri");
    assert!(r0.is_tsumogiri);
    assert_eq!(r0.drawn_tile, 52);
    assert_eq!(r0.discard_tile, 52);
    assert_eq!(r0.called_tile, -1);
    assert_eq!(r0.honba, 1);
    assert_eq!(r0.riichi_sticks, 2);
    assert_eq!(r0.dora_indicators, vec![3]);
    assert_eq!(r0.wall_remaining, 69);
    assert_eq!(r0.turns, [0, 0, 0, 0]);
    assert_eq!(r0.hand_before[0], vec![0, 4, 8, 12, 16, 20, 24, 28, 32, 36, 40, 44, 48, 52]);
    assert!(r0.river_p0.is_empty());

    let r1 = &rows[1];
    assert_eq!(r1.seq, 1);
    assert_eq!(r1.actor, 1);
    assert_eq!(r1.action_type, "discard");
    assert!(!r1.is_tsumogiri);
    assert_eq!(r1.drawn_tile, 53);
    assert_eq!(r1.discard_tile, 1);
    assert_eq!(r1.wall_remaining, 68);
    assert_eq!(r1.turns, [1, 0, 0, 0]);
    assert_eq!(r1.river_p0, vec![52]);
    assert_eq!(r1.river_tsumo_p0, vec![true]);

    for r in &rows {
        assert_eq!(r.round_end_kind, 0);
        assert_eq!(r.round_winner, -1);
        assert_eq!(r.round_tenpai_count, 1);
        assert_eq!(r.round_point_delta, [0, 0, 0, 0]);
    }
}

#[test]
fn ron_row_and_backfill() {
    let xml = format!(
        "{}<T52/><D52/><U53/><E1/>\
         <AGARI ba=\"0,0\" machi=\"60\" ten=\"30,1000,0\" yaku=\"1,1,54,0\" who=\"1\" fromWho=\"0\" \
          sc=\"250,-10,250,10,250,0,250,0\" owari=\"240,-26.0,260,6.0,250,0.0,250,0.0\"/>\
         <T54/><D54/></mjloggm>",
        header()
    );
    let rows = parse_game_xml(&xml, "g2").unwrap();
    assert_eq!(rows.len(), 3);
    let win = &rows[2];
    assert_eq!(win.seq, 2);
    assert_eq!(win.action_type, "ron");
    assert_eq!(win.actor, 1);
    assert_eq!(win.called_tile, 60);
    assert_eq!(win.drawn_tile, -1);
    assert_eq!(win.agari_han_ids, vec![1]);
    assert_eq!(win.agari_han, 1);
    assert_eq!(win.agari_fu, 30);
    assert_eq!(win.agari_points, 1000);
    assert_eq!(win.agari_from, 0);
    assert_eq!(win.scores, [250, 250, 250, 250]);
    for r in &rows {
        assert_eq!(r.round_end_kind, 2);
        assert_eq!(r.round_winner, 1);
        assert_eq!(r.round_tenpai_count, -1);
        assert_eq!(r.round_point_delta, [-10, 10, 0, 0]);
    }
}

#[test]
fn tsumo_row_uses_the_winning_tile_as_draw() {
    let xml = format!(
        "{}<T52/><AGARI machi=\"52\" ten=\"20,400\" yaku=\"0,1,7,1\" who=\"0\" fromWho=\"0\" dorahaiura=\"5,9\"/></mjloggm>",
        header()
    );
    let rows = parse_game_xml(&xml, "g3").unwrap();
    assert_eq!(rows.len(), 1);
    let w = &rows[0];
    assert_eq!(w.action_type, "tsumo");
    assert_eq!(w.drawn_tile, 52);
    assert_eq!(w.called_tile, -1);
    assert_eq!(w.agari_from, -1);
    assert_eq!(w.agari_han_ids, vec![0, 7]);
    assert_eq!(w.agari_han, 2);
    assert_eq!(w.agari_ura_dora, vec![5, 9]);
    assert_eq!(w.round_end_kind, 1);
}

#[test]
fn chi_then_discard() {
    // Seat 0 discards 2m (id 5); seat 1 calls 2m-3m-4m (packed 3076) and discards.
    let xml = format!(
        "{}<T5/><D5/><N who=\"1\" m=\"3076\"/><E17/></mjloggm>",
        header()
    );
    let rows = parse_game_xml(&xml, "g4").unwrap();
    assert_eq!(rows.len(), 2);
    let r = &rows[1];
    assert_eq!(r.action_type, "chi");
    assert_eq!(r.actor, 1);
    assert_eq!(r.called_tile, 5);
    assert_eq!(r.discard_tile, 17);
    assert_eq!(r.drawn_tile, 5);
    assert_eq!(r.melds_p1.len(), 1);
    let m = &r.melds_p1[0];
    assert_eq!(m.meld_type, "chi");
    assert_eq!(m.tiles, vec![5, 9, 13]);
    assert_eq!(m.called_tile, 5);
    assert_eq!(m.from_player, 0);
    assert_eq!(m.discard_n, 0);
    assert_eq!(m.called_pos, 0);
    assert!(!r.hand_before[1].contains(&9));
    assert!(!r.hand_before[1].contains(&13));
    assert!(r.hand_before[1].contains(&17));
}

#[test]
fn closed_kan_gets_its_own_row() {
    // Seat 0 holds three 2m (ids 4, 5, 6), draws the fourth and declares it (packed 1024).
    let xml = "<mjloggm><INIT seed=\"0,0,0,0,0,7\" ten=\"250,250,250,250\" oya=\"0\" \
               hai0=\"4,5,6,8,12,16,20,24,28,32,36,40,44\"/>\
               <T7/><N who=\"0\" m=\"1024\"/><T60/><D60/></mjloggm>";
    let rows = parse_game_xml(xml, "g5").unwrap();
    assert_eq!(rows.len(), 2);
    assert_eq!(rows[0].action_type, "ankan");
    assert_eq!(rows[0].drawn_tile, 7);
    assert_eq!(rows[0].discard_tile, 4);
    assert_eq!(rows[0].called_tile, -1);
    assert_eq!(rows[0].wall_remaining, 68);
    assert_eq!(rows[0].melds_p0[0].tiles, vec![4, 5, 6, 7]);
    assert_eq!(rows[0].melds_p0[0].from_player, -1);
    assert_eq!(rows[0].melds_p0[0].called_tile, 0);
    assert_eq!(rows[0].hand_before[0], vec![4, 5, 6, 7, 8, 12, 16, 20, 24, 28, 32, 36, 40, 44]);
    assert_eq!(rows[1].action_type, "tsumogiri");
    // the replacement draw comes from the dead wall
    assert_eq!(rows[1].wall_remaining, 68);
    assert_eq!(rows[1].hand_before[0], vec![8, 12, 16, 20, 24, 28, 32, 36, 40, 44, 60]);
}

#[test]
fn riichi_declaration() {
    let xml = format!(
        "{}<T52/><REACH who=\"0\" step=\"1\"/><D52/><REACH who=\"0\" ten=\"240,250,250,250\" step=\"2\"/><U53/><E53/></mjloggm>",
        header()
    );
    let rows = parse_game_xml(&xml, "g6").unwrap();
    assert_eq!(rows[0].action_type, "reach");
    assert!(rows[0].riichi[0]);
    assert_eq!(rows[0].riichi_turn[0], 0);
    assert_eq!(rows[0].riichi_tile[0], 52);
    assert_eq!(rows[1].scores, [240, 250, 250, 250]);
    assert_eq!(rows[1].riichi_sticks, 3);
    assert_eq!(rows[1].action_type, "tsumogiri");
}

#[test]
fn dora_reveal() {
    let xml = format!("{}<T52/><DORA hai=\"77\"/><D52/></mjloggm>", header());
    let rows = parse_game_xml(&xml, "g7").unwrap();
    assert_eq!(rows[0].dora_indicators, vec![3, 77]);
}

#[test]
fn malformed_xml_is_an_error() {
    let r = parse_game_xml("<mjloggm><INIT oya=\"0\"></mjloggm>", "bad");
    let e = r.unwrap_err();
    assert!(e.starts_with("XML parse error: "));
}

#[test]
fn meld_seat_out_of_range_is_an_error() {
    let xml = format!("{}<N who=\"7\" m=\"3076\"/></mjloggm>", header());
    assert_eq!(parse_game_xml(&xml, "g8").unwrap_err(), "seat out of range");
}

#[test]
fn empty_log_has_no_rows() {
    assert!(parse_game_xml("", "e").unwrap().is_empty());
    assert!(parse_game_xml("<mjloggm></mjloggm>", "e").unwrap().is_empty());
}

#[test]
fn events_drive_the_state_machine() {
    let open = |name: &str, attrs: &[(&str, &str)]| XmlEvent::Open {
        name: name.to_string(),
        attrs: attrs.iter().map(|(k, v)| (k.to_string(), v.to_string())).collect(),
    };
    let evs = vec![
        XmlEvent::Other,
        open("init", &[("hai1", "1,2,3"), ("oya", "1")]),
        open("u", &[]),
        open("u40", &[]),
        open("e40", &[]),
        XmlEvent::Close { name: "mjloggm".to_string() },
        open("t9", &[]),
        open("d9", &[]),
    ];
    let rows = parse_events(&evs, "ev").unwrap();
    assert_eq!(rows.len(), 1);
    assert_eq!(rows[0].oya, 1);
    assert_eq!(rows[0].actor, 1);
    assert_eq!(rows[0].hand_before[1], vec![1, 2, 3, 40]);
    assert_eq!(rows[0].action_type, "tsumogiri");

    let err = parse_events(&vec![XmlEvent::Error { message: "boom".to_string() }], "ev");
    assert_eq!(err.unwrap_err(), "XML parse error: boom");
    let bad_tag = parse_events(&vec![open("\u{e9}t", &[])], "ev");
    assert_eq!(bad_tag.unwrap_err(), "unsupported tag name");
}

#[test]
fn default_game_state() {
    let g = GameState::default();
    assert_eq!(g.scores, [250, 250, 250, 250]);
    assert_eq!(g.wall_remaining, 70);
    assert_eq!(g.num_players, 4);
    assert_eq!(g.last_draw, -1);
    assert_eq!(g.pending_reach_player, -1);
    assert!(g.snapshots.is_empty());
}

#[test]
fn rows_are_numbered_across_rounds() {
    let xml = format!(
        "{}<T52/><D52/>\
         <RYUUKYOKU ba=\"0,0\" sc=\"250,0,250,0,250,0,250,0\"/>\
         <INIT seed=\"1,0,0,0,0,7\" ten=\"250,250,250,250\" oya=\"1\" hai0=\"{HAI0}\" hai1=\"{HAI1}\" hai2=\"{HAI2}\" hai3=\"{HAI3}\"/>\
         <U53/><E53/><V54/><F54/></mjloggm>",
        header()
    );
    let rows = parse_game_xml(&xml, "g9").unwrap();
    assert_eq!(rows.len(), 3);
    for (j, r) in rows.iter().enumerate() {
        assert_eq!(r.seq, j as i32);
        assert_eq!(r.river_tsumo_p0.len(), r.river_p0.len());
        assert_eq!(r.river_tsumo_p1.len(), r.river_p1.len());
        assert_eq!(r.river_tsumo_p2.len(), r.river_p2.len());
        assert_eq!(r.river_tsumo_p3.len(), r.river_p3.len());
    }
    assert_eq!(rows[1].actor, 1);
    assert!(rows[1].river_p0.is_empty());
}

#[test]
fn hands_and_meld_tiles_stay_sorted() {
    let xml = "<mjloggm><INIT seed=\"0,0,0,0,0,7\" ten=\"250,250,250,250\" oya=\"0\" \
               hai0=\"48,4,0,44\" hai1=\"60,9,20,13,24\"/>\
               <T2/><D5/><N who=\"1\" m=\"3076\"/><E60/></mjloggm>";
    let rows = parse_game_xml(xml, "s").unwrap();
    assert!(!rows.is_empty());
    for r in &rows {
        for p in 0..4 {
            let h = &r.hand_before[p];
            assert!(h.windows(2).all(|w| w[0] <= w[1]), "hand {p} of row {} not sorted: {h:?}", r.seq);
            for m in r.melds_for(p) {
                assert!(m.tiles.windows(2).all(|w| w[0] <= w[1]));
            }
        }
    }
    assert_eq!(rows[0].hand_before[0], vec![0, 2, 4, 44, 48]);
    let chi = &rows.last().unwrap().melds_p1;
    assert_eq!(chi.len(), 1);
    assert_eq!(chi[0].meld_type, "chi");
    assert_eq!(chi[0].tiles.len(), 3);
}

#[test]
fn round_delta_counts_from_the_round_start() {
    let xml = "<mjloggm><INIT seed='0,0,0,0,0,52' ten='250,250,250,250' oya='0' hai0='0,4,8'/>\
               <T12/><REACH who='0' step='1'/><D12/><REACH who='0' step='2'/><U16/><E16/>\
               <RYUUKYOKU sc='240,0,250,0,250,0,250,0'/></mjloggm>";
    let v = parse_game_xml(xml, "g1").unwrap();
    assert_eq!(v.len(), 2);
    assert_eq!(v[0].action_type, "reach");
    assert_eq!(v[1].action_type, "tsumogiri");
    assert_eq!(v[1].scores, [240, 250, 250, 250]);
    for r in &v {
        assert_eq!(r.round_end_kind, 0);
        assert_eq!(r.round_winner, -1);
        assert_eq!(r.round_tenpai_count, 1);
        assert_eq!(r.round_point_delta, [-10, 0, 0, 0]);
    }
}

#[test]
fn closed_kan_takes_no_river_tile() {
    let xml = "<mjloggm><INIT seed='0,0,0,0,0,52' ten='250,250,250,250' oya='0' hai0='108,109,110' hai1='1,4,8'/>\
               <U12/><E1/><T111/><N who='0' m='27648'/></mjloggm>";
    let v = parse_game_xml(xml, "g1").unwrap();
    assert_eq!(v.len(), 2);
    let k = &v[1];
    assert_eq!(k.action_type, "ankan");
    assert_eq!(k.discard_tile, 108);
    assert_eq!(k.drawn_tile, 111);
    assert_eq!(k.hand_before[0], vec![108, 109, 110, 111]);
    assert_eq!(k.melds_p0.len(), 1);
    assert_eq!(k.melds_p0[0].tiles, vec![108, 109, 110, 111]);
    assert_eq!(k.melds_p0[0].called_tile, 0);
    assert_eq!(k.melds_p0[0].from_player, -1);
    assert_eq!(k.melds_p0[0].called_pos, -1);
}
