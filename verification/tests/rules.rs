use liars_dice::guess::{min_count, DieGuess};
use liars_dice::input::{
    parse_agreement, parse_count, parse_face, parse_move_choice, parse_number_answer, Agreement,
    MoveChoice,
};
use liars_dice::player::{
    calculate_result, face_count_fits, get_last_player, player_lost, LossOutcome, PlayerInfo,
};
use liars_dice::render::{draw_dies, Cell, PipRow};
use std::cmp::Ordering;

fn hand(dies_left: u8, counts: [u8; 6]) -> PlayerInfo {
    let mut p = PlayerInfo::default();
    p.dies_left = dies_left;
    for d in 0..6 {
        p.dies[d] = DieGuess { val: (d + 1) as u8, cnt: counts[d] };
    }
    p
}

#[test]
fn die_guess_default_is_empty() {
    let g = DieGuess::default();
    assert_eq!(g, DieGuess { val: 0, cnt: 0 });
}

#[test]
fn player_default_is_empty() {
    let p = PlayerInfo::default();
    assert_eq!(p.name, 0);
    assert!(!p.is_human);
    assert_eq!(p.dies_left, 0);
    for d in 0..6 {
        assert_eq!(p.dies[d], DieGuess { val: 0, cnt: 0 });
    }
}

#[test]
fn bids_order_by_count_then_face() {
    let a = DieGuess { val: 6, cnt: 2 };
    let b = DieGuess { val: 1, cnt: 3 };
    let c = DieGuess { val: 4, cnt: 3 };
    assert_eq!(a.partial_cmp(&b), Some(Ordering::Less));
    assert_eq!(c.partial_cmp(&b), Some(Ordering::Greater));
    assert_eq!(b.partial_cmp(&b), Some(Ordering::Equal));
    assert!(a < b);
    assert!(b < c);
    assert!(c > a);
}

#[test]
fn least_count_of_a_raise() {
    let prev = DieGuess { val: 4, cnt: 3 };
    assert_eq!(min_count(prev, 5), 3);
    assert_eq!(min_count(prev, 4), 4);
    assert_eq!(min_count(prev, 2), 4);
    assert_eq!(min_count(DieGuess::default(), 3), 1);
    // a bid at the least count outbids, one die fewer does not
    assert!(DieGuess { val: 5, cnt: 3 } > prev);
    assert!(DieGuess { val: 2, cnt: 4 } > prev);
    assert!(!(DieGuess { val: 2, cnt: 3 } > prev));
}

#[test]
fn counting_a_face_on_the_table() {
    let players = vec![hand(3, [1, 0, 2, 0, 0, 0]), hand(2, [0, 0, 1, 0, 1, 0]), hand(1, [0, 0, 0, 0, 0, 1])];
    assert_eq!(calculate_result(&players, 3), 3);
    assert_eq!(calculate_result(&players, 1), 1);
    assert_eq!(calculate_result(&players, 2), 0);
    assert_eq!(calculate_result(&players, 6), 1);
    assert!(face_count_fits(&players, 3));
}

#[test]
fn counting_that_would_overflow_is_refused() {
    let players = vec![hand(200, [0, 200, 0, 0, 0, 0]), hand(100, [0, 100, 0, 0, 0, 0])];
    assert!(!face_count_fits(&players, 2));
    assert!(face_count_fits(&players, 3));
}

#[test]
fn last_bidder_is_the_previous_seat_with_dice() {
    let players = vec![hand(1, [0; 6]), hand(0, [0; 6]), hand(2, [0; 6]), hand(0, [0; 6])];
    assert_eq!(get_last_player(&players, 2), 0);
    assert_eq!(get_last_player(&players, 0), 2);
    assert_eq!(get_last_player(&players, 4), 2);
    assert_eq!(get_last_player(&players, 3), 2);
    assert_eq!(get_last_player(&players, 1), 0);
}

#[test]
fn last_bidder_can_be_the_current_player() {
    let players = vec![hand(0, [0; 6]), hand(3, [0; 6]), hand(0, [0; 6])];
    assert_eq!(get_last_player(&players, 1), 1);
}

#[test]
fn losing_a_die_keeps_the_player_in() {
    let mut players = vec![hand(2, [0; 6]), hand(1, [0; 6])];
    let mut left = 2;
    assert_eq!(player_lost(&mut players, 0, &mut left), LossOutcome::Continues);
    assert_eq!(players[0].dies_left, 1);
    assert_eq!(left, 2);
}

#[test]
fn losing_the_last_die_eliminates() {
    let mut players = vec![hand(1, [0; 6]), hand(1, [0; 6]), hand(1, [0; 6])];
    players[1].is_human = true;
    let mut left = 3;
    assert_eq!(player_lost(&mut players, 0, &mut left), LossOutcome::NpcEliminated);
    assert_eq!(left, 2);
    let mut players = vec![hand(1, [0; 6]), hand(1, [0; 6]), hand(1, [0; 6])];
    players[1].is_human = true;
    let mut left = 3;
    assert_eq!(player_lost(&mut players, 1, &mut left), LossOutcome::HumanEliminated);
    assert_eq!(players[1].dies_left, 0);
    assert_eq!(left, 2);
}

#[test]
fn losing_to_the_last_player_ends_the_game() {
    let mut players = vec![hand(1, [0; 6]), hand(4, [0; 6])];
    players[0].is_human = true;
    let mut left = 2;
    assert_eq!(player_lost(&mut players, 0, &mut left), LossOutcome::GameOver);
    assert_eq!(left, 1);
}

#[test]
fn reading_numbers() {
    assert_eq!(parse_number_answer("4\r\n"), Some(4));
    assert_eq!(parse_number_answer("2\r\n"), Some(2));
    assert_eq!(parse_number_answer("6\r\n"), Some(6));
    assert_eq!(parse_number_answer("7\r\n"), None);
    assert_eq!(parse_number_answer("1\r\n"), None);
    assert_eq!(parse_number_answer("4\n"), None);
    assert_eq!(parse_number_answer("44\r\n"), None);
}

#[test]
fn reading_yes_and_no() {
    assert_eq!(parse_agreement("y\n"), Some(Agreement::Yes));
    assert_eq!(parse_agreement("Yes\r\n"), Some(Agreement::Yes));
    assert_eq!(parse_agreement("N\n"), Some(Agreement::No));
    assert_eq!(parse_agreement("x\n"), None);
    assert_eq!(parse_agreement("y"), None);
    assert_eq!(parse_agreement(""), None);
}

#[test]
fn reading_moves() {
    assert_eq!(parse_move_choice("g\n"), Some(MoveChoice::Guess));
    assert_eq!(parse_move_choice("E\n"), Some(MoveChoice::Exact));
    assert_eq!(parse_move_choice("n"), Some(MoveChoice::No));
    assert_eq!(parse_move_choice("q\n"), None);
}

#[test]
fn reading_faces() {
    assert_eq!(parse_face("3\r\n"), Some(3));
    assert_eq!(parse_face("1\r\n"), Some(1));
    assert_eq!(parse_face("7\r\n"), None);
    assert_eq!(parse_face("0\r\n"), None);
    assert_eq!(parse_face("3\n"), None);
}

#[test]
fn reading_counts() {
    assert_eq!(parse_count("12\r\n"), Some(12));
    assert_eq!(parse_count("2a5\r\n"), Some(25));
    assert_eq!(parse_count("255\r\n"), Some(255));
    assert_eq!(parse_count("256\r\n"), None);
    assert_eq!(parse_count("3000\r\n"), None);
    assert_eq!(parse_count("7\n"), Some(0));
    assert_eq!(parse_count("x\r\n"), Some(0));
}

#[test]
fn drawing_dice() {
    let p = hand(2, [0, 1, 0, 0, 0, 1]);
    let rows = draw_dies(p);
    assert_eq!(rows.len(), 9);
    assert_eq!(rows[0], vec![Cell::Top, Cell::Top]);
    assert_eq!(rows[1], vec![Cell::Face(PipRow::Blank), Cell::Face(PipRow::Blank)]);
    assert_eq!(rows[2], vec![Cell::Face(PipRow::Left), Cell::Face(PipRow::Both)]);
    assert_eq!(rows[4], vec![Cell::Face(PipRow::Blank), Cell::Face(PipRow::Both)]);
    assert_eq!(rows[6], vec![Cell::Face(PipRow::Right), Cell::Face(PipRow::Both)]);
    assert_eq!(rows[8], vec![Cell::Bottom, Cell::Bottom]);
}

#[test]
fn drawing_a_five_and_a_three() {
    let p = hand(2, [0, 0, 1, 0, 1, 0]);
    let rows = draw_dies(p);
    assert_eq!(rows[2], vec![Cell::Face(PipRow::Right), Cell::Face(PipRow::Both)]);
    assert_eq!(rows[4], vec![Cell::Face(PipRow::Center), Cell::Face(PipRow::Center)]);
    assert_eq!(rows[6], vec![Cell::Face(PipRow::Left), Cell::Face(PipRow::Both)]);
    assert_eq!(rows[3], vec![Cell::Face(PipRow::Blank), Cell::Face(PipRow::Blank)]);
}
