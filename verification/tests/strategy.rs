use liars_dice::guess::DieGuess;
use liars_dice::player::PlayerInfo;
use liars_dice::strategy::{calc_move, can_calc_move, choose_move, Draws, Move};

fn hand(dies_left: u8, counts: [u8; 6]) -> PlayerInfo {
    let mut p = PlayerInfo::default();
    p.dies_left = dies_left;
    for d in 0..6 {
        p.dies[d] = DieGuess { val: (d + 1) as u8, cnt: counts[d] };
    }
    p
}

fn draws(bluff: u8, face: u8, coin: u8, extra: u8, raise_to: u8, start: usize) -> Draws {
    Draws { bluff, face, coin, extra, raise_to, start }
}

fn bid(val: u8, cnt: u8) -> DieGuess {
    DieGuess { val, cnt }
}

#[test]
fn opening_bid_names_the_face_held_most() {
    let p = hand(5, [1, 0, 2, 0, 2, 0]);
    let m = choose_move(p, 20, 4, DieGuess::default(), draws(0, 1, 1, 1, 0, 0));
    assert_eq!(m, Move::AtLeast(bid(5, 3)));
}

#[test]
fn opening_bid_adds_the_coin_when_many_dice_are_left_over() {
    let p = hand(5, [1, 0, 2, 0, 2, 0]);
    let m = choose_move(p, 22, 4, DieGuess::default(), draws(0, 1, 1, 1, 0, 0));
    assert_eq!(m, Move::AtLeast(bid(5, 4)));
    let m = choose_move(p, 22, 4, DieGuess::default(), draws(0, 1, 0, 1, 0, 0));
    assert_eq!(m, Move::AtLeast(bid(5, 3)));
}

#[test]
fn bluffed_opening_bid() {
    let p = hand(5, [1, 0, 2, 0, 2, 0]);
    let m = choose_move(p, 20, 4, DieGuess::default(), draws(1, 4, 0, 1, 0, 0));
    assert_eq!(m, Move::AtLeast(bid(4, 2)));
}

#[test]
fn bluffed_raise() {
    let p = hand(5, [1, 0, 2, 0, 2, 0]);
    let m = choose_move(p, 20, 4, bid(3, 2), draws(1, 4, 0, 1, 5, 0));
    assert_eq!(m, Move::AtLeast(bid(3, 3)));
    let m = choose_move(p, 20, 4, bid(3, 4), draws(1, 4, 0, 1, 5, 0));
    assert_eq!(m, Move::AtLeast(bid(5, 4)));
}

#[test]
fn raise_on_the_believed_count() {
    let p = hand(5, [1, 0, 2, 0, 2, 0]);
    let m = choose_move(p, 20, 4, bid(2, 2), draws(0, 1, 0, 1, 3, 0));
    assert_eq!(m, Move::AtLeast(bid(3, 2)));
    let m = choose_move(p, 20, 4, bid(2, 2), draws(0, 1, 0, 1, 3, 4));
    assert_eq!(m, Move::AtLeast(bid(5, 2)));
}

#[test]
fn raise_on_the_full_believed_count() {
    let p = hand(5, [1, 0, 2, 0, 2, 0]);
    let m = choose_move(p, 20, 4, bid(5, 3), draws(0, 1, 0, 1, 6, 0));
    assert_eq!(m, Move::AtLeast(bid(3, 4)));
}

#[test]
fn too_high_a_bid_is_called() {
    let p = hand(5, [1, 0, 2, 0, 2, 0]);
    let m = choose_move(p, 20, 4, bid(2, 6), draws(0, 1, 0, 1, 3, 0));
    assert_eq!(m, Move::No);
}

#[test]
fn matching_bid_is_called_exact() {
    let p = hand(1, [0, 0, 0, 0, 0, 1]);
    let m = choose_move(p, 13, 4, bid(6, 3), draws(0, 1, 0, 1, 0, 0));
    assert_eq!(m, Move::Exact);
}

#[test]
fn endgame_calls() {
    let p = hand(1, [0, 0, 0, 0, 0, 1]);
    assert_eq!(choose_move(p, 3, 2, bid(6, 1), draws(0, 1, 0, 0, 0, 0)), Move::Exact);
    assert_eq!(choose_move(p, 3, 2, bid(6, 2), draws(0, 1, 0, 0, 0, 0)), Move::No);
    assert_eq!(choose_move(p, 3, 2, bid(6, 2), draws(0, 1, 1, 0, 0, 0)), Move::Exact);
}

#[test]
fn deciding_is_possible_on_sound_bids() {
    let p = hand(5, [1, 0, 2, 0, 2, 0]);
    assert!(can_calc_move(p, 20, 4, DieGuess::default()));
    assert!(can_calc_move(p, 20, 4, bid(2, 6)));
    assert!(!can_calc_move(p, 3, 4, bid(2, 6)));
    let empty = hand(0, [0; 6]);
    assert!(!can_calc_move(empty, 0, 2, bid(7, 1)));
    let big = hand(200, [254, 0, 0, 0, 0, 0]);
    assert!(!can_calc_move(big, 255, 2, bid(1, 1)));
    assert!(can_calc_move(big, 200, 2, bid(1, 1)));
}

#[test]
fn computer_raises_outbid_the_table() {
    let p = hand(5, [1, 0, 2, 0, 2, 0]);
    let current = bid(2, 2);
    for _ in 0..50 {
        match calc_move(p, 20, 4, current) {
            Move::AtLeast(g) => {
                assert!(g > current);
                assert!(g.val >= 1 && g.val <= 6);
            }
            _ => panic!("a raise was expected"),
        }
    }
}

#[test]
fn computer_opening_draws_its_coin() {
    let p = hand(5, [1, 0, 2, 0, 2, 0]);
    let mut seen = [false; 2];
    for _ in 0..200 {
        match calc_move(p, 22, 4, DieGuess::default()) {
            Move::AtLeast(g) => {
                assert_eq!(g.val, 5);
                assert!(g.cnt == 3 || g.cnt == 4);
                seen[(g.cnt - 3) as usize] = true;
            }
            _ => panic!("an opening bid was expected"),
        }
    }
    assert!(seen[0] && seen[1]);
}

#[test]
fn computer_start_face_varies() {
    let p = hand(5, [1, 0, 2, 0, 2, 0]);
    let mut saw_three = false;
    let mut saw_five = false;
    for _ in 0..200 {
        match calc_move(p, 20, 4, bid(2, 2)) {
            Move::AtLeast(g) => {
                if g == bid(3, 2) {
                    saw_three = true;
                }
                if g == bid(5, 2) {
                    saw_five = true;
                }
            }
            _ => panic!("a raise was expected"),
        }
    }
    assert!(saw_three && saw_five);
}
