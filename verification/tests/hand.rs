use mahjong_analytics::mahjong::hand::{
    calc_score, hand_to_counts, index34_to_id, is_agari, is_tenpai, shanten, tile_to_index34,
};
use mahjong_analytics::mahjong::tiles::{sort_hand, sort_hand_with_draw, Suit};

const COMPLETE: [i32; 14] = [0, 1, 2, 3, 4, 5, 6, 7, 8, 9, 10, 11, 18, 18];

#[test]
fn counts_merge_red_fives() {
    let c = hand_to_counts(&[34, 4, 37, 40, 22]);
    assert_eq!(c[4], 2);
    assert_eq!(c[13], 1);
    assert_eq!(c[22], 2);
    assert_eq!(c.iter().map(|&x| x as u32).sum::<u32>(), 5);
}

#[test]
fn counts_put_unknown_ids_on_first_kind() {
    let c = hand_to_counts(&[99, -3, 35]);
    assert_eq!(c[0], 3);
}

#[test]
fn complete_hand_is_agari() {
    assert!(is_agari(&COMPLETE));
    assert_eq!(shanten(&COMPLETE), -1);
}

#[test]
fn wrong_count_is_not_agari() {
    assert!(!is_agari(&COMPLETE[..13]));
    assert!(!is_agari(&[0, 0, 0]));
}

#[test]
fn seven_pairs_is_agari() {
    let h = [0, 0, 2, 2, 4, 4, 6, 6, 9, 9, 11, 11, 27, 27];
    assert!(is_agari(&h));
    assert_eq!(shanten(&h), -1);
}

#[test]
fn four_of_a_kind_is_not_two_pairs() {
    let h = [0, 0, 0, 0, 4, 4, 6, 6, 9, 9, 11, 11, 27, 27];
    assert!(!is_agari(&h));
}

#[test]
fn thirteen_orphans_is_agari() {
    let h = [0, 8, 9, 17, 18, 26, 27, 28, 29, 30, 31, 32, 33, 33];
    assert!(is_agari(&h));
    assert_eq!(shanten(&h), -1);
}

#[test]
fn single_wait_lists_remaining_copies() {
    let h = &COMPLETE[..13];
    assert_eq!(shanten(h), 0);
    assert_eq!(is_tenpai(h), Some(vec![18, 18, 18]));
}

#[test]
fn two_sided_wait() {
    // 123m 456m 789m 11p + 23s: waits 1s and 4s.
    let h = [0, 1, 2, 3, 4, 5, 6, 7, 8, 9, 9, 19, 20];
    assert_eq!(is_tenpai(&h), Some(vec![18, 18, 18, 18, 21, 21, 21, 21]));
}

#[test]
fn scattered_hand_is_far_from_tenpai() {
    let h = [0, 4, 8, 10, 13, 16, 19, 22, 25, 27, 29, 31, 33];
    assert_eq!(is_tenpai(&h), None);
    assert_eq!(shanten(&h), 6);
}

#[test]
fn score_closed_ron_one_han() {
    let s = calc_score(&COMPLETE, 18, true, false, false, 1);
    assert_eq!(s.fu, 30);
    assert_eq!(s.han, 1);
    assert_eq!(s.base_points, 240);
    assert_eq!(s.payment.ron, 960);
    assert_eq!(s.payment.tsumo_oya, 480);
    assert_eq!(s.payment.tsumo_ko, 240);
}

#[test]
fn score_dealer_tsumo_three_han() {
    let s = calc_score(&COMPLETE, 18, true, true, true, 3);
    assert_eq!(s.fu, 30);
    assert_eq!(s.base_points, 960);
    assert_eq!(s.payment.ron, 5760);
    assert_eq!(s.payment.tsumo_oya, 0);
    assert_eq!(s.payment.tsumo_ko, 1920);
}

#[test]
fn score_honour_pair_and_terminal_triplet() {
    let h = [0, 0, 0, 3, 4, 5, 9, 10, 11, 12, 13, 14, 27, 27];
    let s = calc_score(&h, 27, true, false, false, 2);
    // 20 + 10 (closed ron) + 2 (honour pair) + 4 (terminal triplet) = 36 -> 40
    assert_eq!(s.fu, 40);
    assert_eq!(s.base_points, 40 * 16);
}

#[test]
fn score_quad_and_limits() {
    let h = [0, 0, 0, 0, 3, 4, 5, 9, 10, 11, 12, 13, 14, 18, 18];
    // 20 + 16 (terminal quad) = 36 -> 40, open tsumo adds 2 -> 38 -> 40
    assert_eq!(calc_score(&h, 0, false, false, false, 1).fu, 40);
    assert_eq!(calc_score(&h, 0, false, true, false, 1).fu, 40);
    assert_eq!(calc_score(&COMPLETE, 18, true, false, false, 4).base_points, 1920);
    assert_eq!(calc_score(&[0, 0, 0, 0, 9, 9, 9, 9, 27, 27], 0, true, false, false, 4).base_points, 2000);
    assert_eq!(calc_score(&COMPLETE, 18, true, false, false, 5).base_points, 2000);
    assert_eq!(calc_score(&COMPLETE, 18, true, false, false, 6).base_points, 3000);
    assert_eq!(calc_score(&COMPLETE, 18, true, false, false, 7).base_points, 3000);
    assert_eq!(calc_score(&COMPLETE, 18, true, false, false, 9).base_points, 4000);
    assert_eq!(calc_score(&COMPLETE, 18, true, false, false, 12).base_points, 6000);
    assert_eq!(calc_score(&COMPLETE, 18, true, false, false, 13).base_points, 8000);
    assert_eq!(calc_score(&COMPLETE, 18, true, false, false, 20).base_points, 8000);
    assert_eq!(calc_score(&COMPLETE, 18, true, false, false, 0).base_points, 120);
}

#[test]
fn sorted_hands() {
    assert_eq!(sort_hand(&[9, 3, 16, 1]), vec![1, 3, 9, 16]);
    let (rest, drawn) = sort_hand_with_draw(&[9, 3, 16, 3, 1], 3);
    assert_eq!(rest, vec![1, 3, 9, 16]);
    assert_eq!(drawn, 3);
}

#[test]
fn suits_compare() {
    assert_eq!(Suit::Manzu, Suit::Manzu);
    assert_ne!(Suit::Pinzu, Suit::Souzu);
    assert_ne!(Suit::Jihai, Suit::Manzu);
}

#[test]
fn reordering_and_red_fives_change_nothing() {
    // 123m 406m(red 5m) 789m 11p + 23s, shuffled, red five for the plain five.
    let plain = [0, 1, 2, 3, 4, 5, 6, 7, 8, 9, 9, 19, 20];
    let varied = [20, 9, 34, 8, 0, 19, 5, 2, 7, 3, 9, 6, 1];
    assert_eq!(shanten(&plain), shanten(&varied));
    assert_eq!(is_tenpai(&plain), is_tenpai(&varied));
    assert_eq!(hand_to_counts(&plain), hand_to_counts(&varied));
    let mut won = varied.to_vec();
    won.push(18);
    assert!(is_agari(&won));
    assert_eq!(shanten(&won), -1);
}

#[test]
fn every_listed_wait_completes_the_hand() {
    let h = [0, 1, 2, 3, 4, 5, 6, 7, 8, 9, 9, 19, 20];
    let waits = is_tenpai(&h).unwrap();
    for k in 0..34 {
        let mut full = h.to_vec();
        full.push(k);
        let listed = waits.contains(&k);
        assert_eq!(listed, is_agari(&full), "kind {}", k);
    }
}

#[test]
fn kind_index_and_id_round_trip() {
    for idx in 0..34usize {
        assert_eq!(index34_to_id(idx), idx as i32);
        assert_eq!(tile_to_index34(index34_to_id(idx)), idx);
    }
    assert_eq!(index34_to_id(34), 0);
    assert_eq!(index34_to_id(tile_to_index34(34)), 4);
    assert_eq!(index34_to_id(tile_to_index34(37)), 13);
    assert_eq!(index34_to_id(tile_to_index34(40)), 22);
    assert_eq!(tile_to_index34(99), 0);
    let c = hand_to_counts(&[13, 37]);
    assert_eq!(c[13], 2);
    for id in 0..34 {
        let c = hand_to_counts(&[id]);
        assert_eq!(c[id as usize], 1);
    }
    // a single wait is reported by the id of its kind, red five or not
    let h = [0, 1, 2, 3, 34, 5, 6, 7, 8, 9, 10, 11, 40];
    assert_eq!(is_tenpai(&h), Some(vec![22, 22, 22]));
}
