use cartel_engine::cards::ChipType;
use cartel_engine::events::Token;
use cartel_engine::queue::{
    count_stacked, handled_before, handling_order, interleave, select_ready, sort_by_depth,
};

fn token(entity: u64, chip_type: ChipType, depth: i64) -> Token {
    Token {
        entity,
        depth,
        chip_type,
        marker: 1,
        player: 1,
        turn_activation_1: 1,
        turn_activation_2: 0,
    }
}

fn entities(tokens: &[Token]) -> Vec<u64> {
    tokens.iter().map(|t| t.entity).collect()
}

#[test]
fn sort_ascending_keeps_equal_depths_in_place() {
    let tokens = vec![
        token(1, ChipType::Cocaine, 5),
        token(2, ChipType::Cocaine, -3),
        token(3, ChipType::Cocaine, 5),
        token(4, ChipType::Cocaine, 0),
        token(5, ChipType::Cocaine, -3),
    ];
    assert_eq!(entities(&sort_by_depth(&tokens, false)), vec![2, 5, 4, 1, 3]);
}

#[test]
fn sort_descending_keeps_equal_depths_in_place() {
    let tokens = vec![
        token(1, ChipType::Cocaine, 5),
        token(2, ChipType::Cocaine, -3),
        token(3, ChipType::Cocaine, 5),
        token(4, ChipType::Cocaine, 0),
        token(5, ChipType::Cocaine, -3),
    ];
    assert_eq!(entities(&sort_by_depth(&tokens, true)), vec![1, 3, 4, 2, 5]);
    assert!(sort_by_depth(&vec![], true).is_empty());
}

#[test]
fn order_of_two_tokens() {
    let shallow = token(1, ChipType::Cocaine, 1);
    let deep = token(2, ChipType::Cocaine, 2);
    assert!(handled_before(&shallow, &deep, false));
    assert!(!handled_before(&deep, &shallow, false));
    assert!(handled_before(&deep, &shallow, true));
    assert!(!handled_before(&shallow, &shallow, true));
    assert!(!handled_before(&shallow, &shallow, false));
}

#[test]
fn interleave_appends_the_rest_of_the_longer_row() {
    let a = vec![
        token(1, ChipType::Cannabis, 0),
        token(2, ChipType::Cannabis, 1),
        token(3, ChipType::Cannabis, 2),
    ];
    let b = vec![token(9, ChipType::Cocaine, 0)];
    assert_eq!(entities(&interleave(&a, &b)), vec![1, 9, 2, 3]);
    assert_eq!(entities(&interleave(&b, &a)), vec![9, 1, 2, 3]);
    assert_eq!(interleave(&a, &vec![]), a);
    assert_eq!(interleave(&vec![], &a), a);
    assert_eq!(entities(&interleave(&a, &a)), vec![1, 1, 2, 2, 3, 3]);
}

#[test]
fn select_ready_for_transport_and_for_sale() {
    let mut sold = token(3, ChipType::Cocaine, 0);
    sold.marker = 2;
    sold.turn_activation_2 = 1;
    let chips = vec![token(1, ChipType::Cocaine, 0), token(2, ChipType::Cannabis, 0), sold];
    assert_eq!(entities(&select_ready(&chips, false, ChipType::Cocaine, 1, 2)), vec![1]);
    assert_eq!(entities(&select_ready(&chips, false, ChipType::Cannabis, 1, 2)), vec![2]);
    assert_eq!(entities(&select_ready(&chips, true, ChipType::Cocaine, 1, 2)), vec![3]);
    assert!(select_ready(&chips, true, ChipType::Cocaine, 1, 1).is_empty());
    assert!(select_ready(&chips, false, ChipType::Cocaine, 1, 1).is_empty());
    assert!(select_ready(&chips, false, ChipType::Cocaine, 2, 2).is_empty());
}

#[test]
fn handling_order_starts_with_cannabis() {
    let chips = vec![
        token(1, ChipType::Cocaine, 0),
        token(2, ChipType::Cannabis, 4),
        token(3, ChipType::Cannabis, 2),
    ];
    let order = handling_order(&chips, false, 1, 2);
    assert_eq!(entities(&order), vec![3, 1, 2]);
    assert_eq!(order[0].chip_type, ChipType::Cannabis);
    assert_eq!(order[1].chip_type, ChipType::Cocaine);
}

#[test]
fn count_stacked_counts_one_kind_in_one_area() {
    let mut sold = token(3, ChipType::Cocaine, 0);
    sold.marker = 2;
    let mut other_player = token(4, ChipType::Cocaine, 0);
    other_player.player = 2;
    let chips = vec![
        token(1, ChipType::Cocaine, 0),
        token(2, ChipType::Cannabis, 0),
        sold,
        other_player,
    ];
    assert_eq!(count_stacked(&chips, 1, ChipType::Cocaine), 2);
    assert_eq!(count_stacked(&chips, 1, ChipType::Cannabis), 1);
    assert_eq!(count_stacked(&chips, 2, ChipType::Cocaine), 1);
    assert_eq!(count_stacked(&chips, 2, ChipType::Cannabis), 0);
    assert_eq!(count_stacked(&vec![], 1, ChipType::Cocaine), 0);
}
