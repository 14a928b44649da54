use koikoi::cards::Card;
use koikoi::yaku::{yaku_list, yaku_point_calc};

fn c(suit: u8, rank: u8) -> Card {
    Card { suit, rank }
}

fn names(list: &[(i32, &'static str, i32)]) -> Vec<(&'static str, i32)> {
    list.iter().map(|e| (e.1, e.2)).collect()
}

fn five_lights() -> Vec<Card> {
    vec![c(1, 1), c(3, 1), c(8, 1), c(11, 1), c(12, 1)]
}

#[test]
fn empty_pile_scores_nothing() {
    let list = yaku_list(&Vec::new(), 0);
    assert!(list.is_empty());
    assert_eq!(yaku_point_calc(&Vec::new(), 0), 0);
}

#[test]
fn five_lights_suppresses_lower_lights() {
    let list = yaku_list(&five_lights(), 0);
    assert_eq!(names(&list), vec![("Five Lights", 10)]);
    assert_eq!(list[0].0, 1);
    assert!(list.iter().all(|e| e.0 != 2 && e.0 != 3 && e.0 != 4));
}

#[test]
fn four_lights_without_rain_man() {
    let pile = vec![c(1, 1), c(3, 1), c(8, 1), c(12, 1)];
    assert_eq!(names(&yaku_list(&pile, 0)), vec![("Four Lights", 8)]);
}

#[test]
fn rainy_four_lights() {
    let pile = vec![c(1, 1), c(3, 1), c(8, 1), c(11, 1)];
    assert_eq!(names(&yaku_list(&pile, 0)), vec![("Rainy Four Lights", 7)]);
}

#[test]
fn three_lights_needs_dry_cards() {
    let pile = vec![c(1, 1), c(3, 1), c(12, 1)];
    assert_eq!(names(&yaku_list(&pile, 0)), vec![("Three Lights", 5)]);
    // with the rain man among the three, no lights combination at all
    let wet = vec![c(1, 1), c(3, 1), c(11, 1)];
    assert!(yaku_list(&wet, 0).is_empty());
}

#[test]
fn boar_deer_butterfly() {
    let pile = vec![c(6, 1), c(7, 1), c(10, 1)];
    let list = yaku_list(&pile, 0);
    assert!(names(&list).contains(&("Boar-Deer-Butterfly", 5)));
}

#[test]
fn viewing_sake_upgrades_with_koikoi() {
    let flower = vec![c(3, 1), c(9, 1)];
    assert!(names(&yaku_list(&flower, 0)).contains(&("Flower Viewing Sake", 1)));
    assert!(names(&yaku_list(&flower, 1)).contains(&("Flower Viewing Sake", 3)));
    let moon = vec![c(8, 1), c(9, 1)];
    assert!(names(&yaku_list(&moon, 0)).contains(&("Moon Viewing Sake", 1)));
    assert!(names(&yaku_list(&moon, 2)).contains(&("Moon Viewing Sake", 3)));
}

#[test]
fn tane_counts_seeds_over_four() {
    let pile = vec![c(2, 1), c(4, 1), c(5, 1), c(6, 1), c(7, 1)];
    let list = yaku_list(&pile, 0);
    assert!(names(&list).contains(&("Tane", 1)));
    let more = vec![c(2, 1), c(4, 1), c(5, 1), c(6, 1), c(7, 1), c(8, 2), c(10, 1)];
    assert!(names(&yaku_list(&more, 0)).contains(&("Tane", 3)));
}

#[test]
fn ribbon_triads() {
    let red = vec![c(1, 2), c(2, 2), c(3, 2)];
    assert_eq!(names(&yaku_list(&red, 0)), vec![("Red Ribbons", 5)]);
    let blue = vec![c(6, 2), c(9, 2), c(10, 2)];
    assert_eq!(names(&yaku_list(&blue, 0)), vec![("Blue Ribbons", 5)]);
    let both = vec![c(1, 2), c(2, 2), c(3, 2), c(6, 2), c(9, 2), c(10, 2)];
    let list = yaku_list(&both, 0);
    // six ribbons also reach the Tan count bonus
    assert_eq!(names(&list), vec![("Red & Blue Ribbons", 10), ("Tan", 2)]);
}

#[test]
fn tan_counts_ribbons_over_four() {
    let pile = vec![c(1, 2), c(2, 2), c(4, 2), c(5, 2), c(7, 2)];
    assert_eq!(names(&yaku_list(&pile, 0)), vec![("Tan", 1)]);
}

#[test]
fn kasu_with_eleven_dross() {
    let pile = vec![
        c(1, 3),
        c(1, 4),
        c(2, 3),
        c(2, 4),
        c(3, 3),
        c(3, 4),
        c(4, 3),
        c(4, 4),
        c(5, 3),
        c(5, 4),
        c(6, 3),
    ];
    let list = yaku_list(&pile, 0);
    assert_eq!(names(&list), vec![("Kasu", 2)]);
}

#[test]
fn sake_cup_counts_as_dross_too() {
    // the sake cup plus nine plain dross cards reach the Kasu bonus
    let pile = vec![
        c(9, 1),
        c(1, 3),
        c(1, 4),
        c(2, 3),
        c(2, 4),
        c(3, 3),
        c(3, 4),
        c(4, 3),
        c(4, 4),
        c(5, 3),
    ];
    let list = yaku_list(&pile, 0);
    assert!(names(&list).contains(&("Kasu", 1)));
}

#[test]
fn koikoi_entry_records_count() {
    let list = yaku_list(&Vec::new(), 3);
    assert_eq!(names(&list), vec![("Koi-Koi", 3)]);
    assert_eq!(list[0].0, 16);
}

#[test]
fn point_formula_adds_small_counts() {
    let pile = five_lights();
    assert_eq!(yaku_point_calc(&pile, 0), 10);
    assert_eq!(yaku_point_calc(&pile, 1), 11);
    assert_eq!(yaku_point_calc(&pile, 3), 13);
}

#[test]
fn point_formula_scales_large_counts() {
    let pile = five_lights();
    assert_eq!(yaku_point_calc(&pile, 4), 20);
    assert_eq!(yaku_point_calc(&pile, 8), 60);
    assert_eq!(yaku_point_calc(&Vec::new(), 8), 0);
}
