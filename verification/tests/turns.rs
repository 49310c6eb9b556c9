use liars_dice::game::{tally_roll, Round, Table, Turn};
use liars_dice::guess::DieGuess;
use liars_dice::player::{calculate_result, LossOutcome, PlayerInfo};
use liars_dice::strategy::Move;

fn seat(dies_left: u8) -> PlayerInfo {
    let mut p = PlayerInfo::default();
    p.dies_left = dies_left;
    p.name = 3;
    for d in 0..6 {
        p.dies[d] = DieGuess { val: (d + 1) as u8, cnt: 9 };
    }
    p
}

#[test]
fn a_roll_is_counted_by_face() {
    let p = seat(5);
    let q = tally_roll(p, &[0, 3, 3, 5, 0]);
    assert_eq!(q.name, 3);
    assert_eq!(q.dies_left, 5);
    let counts: Vec<u8> = q.dies.iter().map(|d| d.cnt).collect();
    assert_eq!(counts, vec![2, 0, 0, 2, 0, 1]);
    let vals: Vec<u8> = q.dies.iter().map(|d| d.val).collect();
    assert_eq!(vals, vec![1, 2, 3, 4, 5, 6]);
}

#[test]
fn an_empty_roll_clears_the_hand() {
    let q = tally_roll(seat(0), &[]);
    assert!(q.dies.iter().all(|d| d.cnt == 0));
}

#[test]
fn reordering_the_seats_keeps_the_count() {
    let mut a = seat(2);
    a = tally_roll(a, &[1, 1]);
    let mut b = seat(3);
    b = tally_roll(b, &[1, 4, 2]);
    let c = tally_roll(seat(1), &[5]);
    let players = vec![a, b, c];
    let reordered = vec![c, a, b];
    for v in 1..=6 {
        assert_eq!(calculate_result(&players, v), calculate_result(&reordered, v));
    }
    assert_eq!(calculate_result(&players, 2), 3);
}

#[test]
fn a_raise_stands_and_the_turn_passes() {
    let mut rng = rand::thread_rng();
    let mut t = Table::new(3, 2, &mut rng);
    t.roll_dice(&mut rng);
    let mut round = Round::start(2);
    let g = DieGuess { val: 4, cnt: 1 };
    assert!(matches!(t.play_turn(&mut round, Some(Move::AtLeast(g))), Turn::Raised));
    assert_eq!(round.guess, g);
    assert_eq!(round.current_player, 0);
    let h = DieGuess { val: 2, cnt: 2 };
    assert!(matches!(t.play_turn(&mut round, Some(Move::AtLeast(h))), Turn::Raised));
    assert_eq!(round.guess, h);
    assert_eq!(round.current_player, 1);
    assert_eq!(t.dies_left(), 6);
}

#[test]
fn a_challenge_ends_the_round_with_the_loser_to_start() {
    let mut rng = rand::thread_rng();
    let mut t = Table::new(3, 2, &mut rng);
    t.roll_dice(&mut rng);
    let mut round = Round::start(0);
    let g = DieGuess { val: 6, cnt: 7 };
    t.play_turn(&mut round, Some(Move::AtLeast(g)));
    match t.play_turn(&mut round, Some(Move::No)) {
        Turn::Settled(s) => {
            assert_eq!(s.loser, 0);
            assert_eq!(s.outcome, LossOutcome::Continues);
        }
        _ => panic!("the challenge must be settled"),
    }
    assert_eq!(round.current_player, 0);
    assert_eq!(round.guess, DieGuess::default());
    assert_eq!(t.dies_left(), 5);
}

#[test]
fn a_seat_without_dice_is_skipped() {
    let mut rng = rand::thread_rng();
    let mut t = Table::new(2, 1, &mut rng);
    t.roll_dice(&mut rng);
    let mut round = Round::start(0);
    let actual = calculate_result(t.players(), 3);
    let g = DieGuess { val: 3, cnt: actual + 1 };
    t.play_turn(&mut round, Some(Move::AtLeast(g)));
    // seat 1 calls "too high" and is right: seat 0 loses its only die
    match t.play_turn(&mut round, Some(Move::No)) {
        Turn::Settled(s) => {
            assert_eq!(s.loser, 0);
            assert_eq!(s.outcome, LossOutcome::GameOver);
        }
        _ => panic!("the challenge must be settled"),
    }
    assert!(matches!(t.play_turn(&mut round, None), Turn::Skipped));
    assert_eq!(round.current_player, 1);
    assert_eq!(t.players_left(), 1);
}

#[test]
fn counts_add_up_over_two_tables() {
    let a = vec![tally_roll(seat(2), &[1, 1]), tally_roll(seat(1), &[4])];
    let b = vec![tally_roll(seat(3), &[1, 4, 2])];
    let both = [a.clone(), b.clone()].concat();
    for v in 0..=7 {
        assert_eq!(calculate_result(&both, v), calculate_result(&a, v) + calculate_result(&b, v));
    }
    let empty: Vec<PlayerInfo> = Vec::new();
    assert_eq!(calculate_result(&empty, 3), 0);
}

#[test]
fn each_face_counts_its_own_entry() {
    let players = vec![tally_roll(seat(3), &[0, 5, 5]), tally_roll(seat(2), &[5, 2])];
    assert_eq!(calculate_result(&players, 1), 1);
    assert_eq!(calculate_result(&players, 3), 1);
    assert_eq!(calculate_result(&players, 6), 3);
    assert_eq!(calculate_result(&players, 2), 0);
    assert_eq!(calculate_result(&players, 0), 0);
    assert_eq!(calculate_result(&players, 7), 0);
    let total: u8 = (1..=6).map(|v| calculate_result(&players, v)).sum();
    assert_eq!(total, 5);
}
