use liars_dice::guess::DieGuess;
use liars_dice::player::{calculate_result, get_last_player, LossOutcome};
use liars_dice::game::{next_seat, Table};

fn hand_size(t: &Table, i: usize) -> u32 {
    t.players()[i].dies.iter().map(|d| d.cnt as u32).sum()
}

#[test]
fn new_table_seats_everyone() {
    let mut rng = rand::thread_rng();
    for _ in 0..20 {
        let t = Table::new(6, 5, &mut rng);
        let players = t.players();
        assert_eq!(players.len(), 6);
        assert_eq!(players.iter().filter(|p| p.is_human).count(), 1);
        assert_eq!(t.players_left(), 6);
        assert_eq!(t.dies_left(), 30);
        let mut names: Vec<usize> = players.iter().filter(|p| !p.is_human).map(|p| p.name).collect();
        assert!(names.iter().all(|n| *n < 6));
        names.sort();
        names.dedup();
        assert_eq!(names.len(), 5);
        for p in players {
            assert_eq!(p.dies_left, 5);
            for d in 0..6 {
                assert_eq!(p.dies[d], DieGuess { val: (d + 1) as u8, cnt: 0 });
            }
        }
    }
}

#[test]
fn seven_seats_use_every_name() {
    let mut rng = rand::thread_rng();
    let t = Table::new(7, 2, &mut rng);
    let mut names: Vec<usize> = t.players().iter().filter(|p| !p.is_human).map(|p| p.name).collect();
    names.sort();
    assert_eq!(names, vec![0, 1, 2, 3, 4, 5]);
}

#[test]
fn rolling_fills_every_hand() {
    let mut rng = rand::thread_rng();
    let mut t = Table::new(4, 6, &mut rng);
    let mut faces_seen = [false; 6];
    for _ in 0..10 {
        t.roll_dice(&mut rng);
        for i in 0..4 {
            assert_eq!(hand_size(&t, i), 6);
            for d in 0..6 {
                assert_eq!(t.players()[i].dies[d].val as usize, d + 1);
                if t.players()[i].dies[d].cnt > 0 {
                    faces_seen[d] = true;
                }
            }
        }
        let total: u32 = (1..=6).map(|v| calculate_result(t.players(), v) as u32).sum();
        assert_eq!(total, t.dies_left() as u32);
    }
    assert!(faces_seen.iter().all(|s| *s));
    assert_eq!(t.players_left(), 4);
    assert_eq!(t.dies_left(), 24);
}

#[test]
fn too_high_bid_costs_the_bidder() {
    let mut rng = rand::thread_rng();
    let mut t = Table::new(3, 2, &mut rng);
    t.roll_dice(&mut rng);
    let guess = DieGuess { val: 3, cnt: 7 };
    let bidder = get_last_player(t.players(), 1);
    let s = t.settle_challenge(1, guess, false);
    assert_eq!(bidder, 0);
    assert_eq!(s.loser, 0);
    assert!(s.actual < 7);
    assert_eq!(s.outcome, LossOutcome::Continues);
    assert_eq!(t.players()[0].dies_left, 1);
    assert_eq!(t.dies_left(), 5);
    assert_eq!(t.players_left(), 3);
}

#[test]
fn sound_bid_costs_the_caller() {
    let mut rng = rand::thread_rng();
    let mut t = Table::new(3, 2, &mut rng);
    t.roll_dice(&mut rng);
    let guess = DieGuess { val: 4, cnt: 0 };
    let s = t.settle_challenge(2, guess, false);
    assert_eq!(s.loser, 2);
    assert_eq!(t.players()[2].dies_left, 1);
    assert_eq!(t.dies_left(), 5);
}

#[test]
fn exact_call_decides_by_the_count() {
    let mut rng = rand::thread_rng();
    let mut t = Table::new(3, 2, &mut rng);
    t.roll_dice(&mut rng);
    let actual = calculate_result(t.players(), 2);
    let s = t.settle_challenge(0, DieGuess { val: 2, cnt: actual }, true);
    assert_eq!(s.actual, actual);
    assert_eq!(s.loser, 2);
    let actual = calculate_result(t.players(), 5);
    let s = t.settle_challenge(1, DieGuess { val: 5, cnt: actual + 1 }, true);
    assert_eq!(s.loser, 1);
    assert_eq!(t.dies_left(), 4);
}

#[test]
fn the_game_ends_with_one_player() {
    let mut rng = rand::thread_rng();
    let mut t = Table::new(2, 1, &mut rng);
    t.roll_dice(&mut rng);
    let s = t.settle_challenge(0, DieGuess { val: 1, cnt: 0 }, false);
    assert_eq!(s.loser, 0);
    assert_eq!(s.outcome, LossOutcome::GameOver);
    assert_eq!(t.players_left(), 1);
    assert_eq!(t.dies_left(), 1);
}

#[test]
fn the_turn_passes_round_the_table() {
    assert_eq!(next_seat(0, 4), 1);
    assert_eq!(next_seat(3, 4), 0);
}
