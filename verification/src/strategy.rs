//! How a computer player answers the bid on the table.

use vstd::prelude::*;
use crate::guess::{DieGuess, bid_below};
use crate::player::PlayerInfo;
use crate::random::{thread_rng, gen_range_u8, gen_range_usize};

verus! {

/// A player's answer to the bid on the table.
#[derive(Clone, Copy, Debug, PartialEq, Eq, Structural)]
pub enum Move {
    /// The bid is exactly right.
    Exact,
    /// The bid is too high.
    No,
    /// A new, higher bid.
    AtLeast(DieGuess),
}

/// The random values one decision draws on.
#[derive(Clone, Copy, Debug)]
pub struct Draws {
    /// Whether to bluff (drawn from `0..1`, so always 0).
    pub bluff: u8,
    /// A face for a bluffed opening bid (`1..=6`).
    pub face: u8,
    /// A coin (`0..=1`): one more die on a bid, or whether to call "exact".
    pub coin: u8,
    /// Extra dice for a bluffed opening bid (`1..full sets of six`).
    pub extra: u8,
    /// A higher face for a bluffed raise (`val + 1..=6`).
    pub raise_to: u8,
    /// The face (`0..6`) from which the player starts looking for a raise.
    pub start: usize,
}

/// The dice in the other players' hands.
pub open spec fn others(p: PlayerInfo, dies_left: u8) -> int {
    dies_left - p.dies_left
}

/// Few dice left with the others, or few players left: the end of the game.
pub open spec fn is_endgame(p: PlayerInfo, dies_left: u8, players_left: usize) -> bool {
    others(p, dies_left) < 4 || players_left < 3
}

/// How many dice of any face the player expects among the others' dice.
pub open spec fn expected(p: PlayerInfo, dies_left: u8) -> int {
    others(p, dies_left) / 6 + if others(p, dies_left) % 6 > 3 {
        1int
    } else {
        0
    }
}

/// The entry of the hand with the highest bid among the first `k + 1`; the
/// first one among equals.
pub open spec fn best_upto(dies: Seq<DieGuess>, k: int) -> DieGuess
    decreases k,
{
    if k <= 0 {
        dies[0]
    } else if bid_below(best_upto(dies, k - 1), dies[k]) {
        dies[k]
    } else {
        best_upto(dies, k - 1)
    }
}

/// The opening bid when not bluffing: the face held most, counted with the
/// full sets of six among the others' dice, less one, plus the coin when many
/// dice are left over.
pub open spec fn opening_bid(p: PlayerInfo, dies_left: u8, coin: u8) -> DieGuess {
    let o = others(p, dies_left);
    let best = best_upto(p.dies@, 5);
    let c1 = best.cnt + o / 6;
    let c2 = if c1 > 1 {
        c1 - 1
    } else {
        c1
    };
    let c3 = if o % 6 > 3 {
        c2 + coin
    } else {
        c2
    };
    DieGuess { val: best.val, cnt: c3 as u8 }
}

/// A bluffed opening bid: a random face, one die and some random extra dice.
pub open spec fn bluff_opening(p: PlayerInfo, dies_left: u8, players_left: usize, d: Draws) -> DieGuess {
    let full = others(p, dies_left) / 6;
    let extra: int = if is_endgame(p, dies_left, players_left) {
        if p.dies_left > 2 {
            d.coin as int
        } else {
            0
        }
    } else if full > 1 {
        d.extra as int
    } else {
        0
    };
    DieGuess { val: d.face, cnt: (1 + extra) as u8 }
}

/// The highest count the player bluffs up to.
pub open spec fn bluff_limit(p: PlayerInfo, dies_left: u8, players_left: usize) -> int {
    (if is_endgame(p, dies_left, players_left) {
        1int
    } else {
        dies_left / 6 + if dies_left % 6 > 3 {
            1int
        } else {
            0
        }
    }) + if p.dies_left > 3 {
        1int
    } else {
        0
    }
}

/// A bluffed raise, where the count allows one.
pub open spec fn bluff_raise(p: PlayerInfo, dies_left: u8, players_left: usize, cur: DieGuess, d: Draws) -> Option<DieGuess> {
    let limit = bluff_limit(p, dies_left, players_left);
    if cur.cnt < limit {
        Some(DieGuess { val: cur.val, cnt: (cur.cnt + 1) as u8 })
    } else if cur.cnt == limit && cur.val < 6 {
        Some(DieGuess { val: d.raise_to, cnt: cur.cnt })
    } else {
        None
    }
}

/// The bid the player believes in for hand entry `i`: its face, and the dice
/// held of it with the expected ones, less `slack`.
pub open spec fn believed(p: PlayerInfo, min: int, i: int, slack: int) -> DieGuess {
    DieGuess { val: (i + 1) as u8, cnt: (p.dies[i].cnt + min - slack) as u8 }
}

/// Hand entry `i` backs a raise over `cur`.
pub open spec fn backs_raise(p: PlayerInfo, min: int, cur: DieGuess, i: int, slack: int) -> bool {
    p.dies[i].cnt + min > slack && bid_below(cur, believed(p, min, i, slack))
}

/// Some hand entry backs a raise over `cur`.
pub open spec fn has_raise(p: PlayerInfo, min: int, cur: DieGuess, slack: int) -> bool {
    exists|i: int| 0 <= i < 6 && backs_raise(p, min, cur, i, slack)
}

/// The hand entry `k` places after `start`, round the six faces.
pub open spec fn rot(k: int, start: int) -> int {
    (k + start) % 6
}

/// Looking at the hand entries from `start` on, round the six faces, from the
/// `k`-th one: the first that backs a raise over `cur`.
pub open spec fn scan_from(p: PlayerInfo, min: int, cur: DieGuess, start: int, slack: int, k: int) -> Option<DieGuess>
    decreases 6 - k,
{
    if k >= 6 {
        None
    } else if backs_raise(p, min, cur, rot(k, start), slack) {
        Some(believed(p, min, rot(k, start), slack))
    } else {
        scan_from(p, min, cur, start, slack, k + 1)
    }
}

/// The smallest raise over `cur` that names the face of `rd`.
pub open spec fn top_up(rd: DieGuess, cur: DieGuess) -> DieGuess {
    if rd.val > cur.val {
        DieGuess { val: rd.val, cnt: cur.cnt }
    } else {
        DieGuess { val: rd.val, cnt: (cur.cnt + 1) as u8 }
    }
}

/// How many dice of the bid face the player holds.
pub open spec fn held(p: PlayerInfo, cur: DieGuess) -> int {
    p.dies[cur.val - 1].cnt as int
}

/// Where no raise is believed: whether the player calls the bid exact.
pub open spec fn calls_exact(p: PlayerInfo, dies_left: u8, players_left: usize, cur: DieGuess, coin: u8) -> bool {
    let o = others(p, dies_left);
    if is_endgame(p, dies_left, players_left) {
        (coin > 0 && cur.cnt <= o / 2 + o % 2 + held(p, cur)) || held(p, cur) == cur.cnt
    } else {
        held(p, cur) + expected(p, dies_left) == cur.cnt && (o % 6 == 0 || o % 6 == 1 || o % 6 == 5)
    }
}

/// The answer of the computer player `p` to the bid `cur`, with `dies_left`
/// dice in the game, `players_left` players, and the draws `d`.
pub open spec fn move_spec(p: PlayerInfo, dies_left: u8, players_left: usize, cur: DieGuess, d: Draws) -> Move {
    let min = expected(p, dies_left);
    if cur.is_opening() {
        if d.bluff > 0 {
            Move::AtLeast(bluff_opening(p, dies_left, players_left, d))
        } else {
            Move::AtLeast(opening_bid(p, dies_left, d.coin))
        }
    } else if d.bluff > 0 && bluff_raise(p, dies_left, players_left, cur, d) is Some {
        Move::AtLeast(bluff_raise(p, dies_left, players_left, cur, d)->0)
    } else if scan_from(p, min, cur, d.start as int, 1, 0) is Some {
        Move::AtLeast(top_up(scan_from(p, min, cur, d.start as int, 1, 0)->0, cur))
    } else if scan_from(p, min, cur, d.start as int, 0, 0) is Some {
        Move::AtLeast(top_up(scan_from(p, min, cur, d.start as int, 0, 0)->0, cur))
    } else if calls_exact(p, dies_left, players_left, cur, d.coin) {
        Move::Exact
    } else {
        Move::No
    }
}

/// The draws lie in the ranges they are drawn from (the bluff draw aside).
pub open spec fn draws_fit(p: PlayerInfo, dies_left: u8, cur: DieGuess, d: Draws) -> bool {
    &&& 1 <= d.face <= 6
    &&& d.coin <= 1
    &&& (others(p, dies_left) / 6 > 1 ==> 1 <= d.extra < others(p, dies_left) / 6)
    &&& (cur.val < 6 ==> cur.val < d.raise_to <= 6)
    &&& d.start < 6
}

/// The counts the decision adds up fit in a `u8`, and a bid that the player
/// may have to call names a face of the hand.
pub open spec fn move_fits(p: PlayerInfo, dies_left: u8, players_left: usize, cur: DieGuess) -> bool {
    let o = others(p, dies_left);
    let min = expected(p, dies_left);
    &&& p.dies_left <= dies_left
    &&& if cur.is_opening() {
        forall|i: int| 0 <= i < 6 ==> p.dies[i].cnt + o / 6 <= u8::MAX
    } else {
        &&& forall|i: int| 0 <= i < 6 ==> p.dies[i].cnt + min <= u8::MAX
        &&& !has_raise(p, min, cur, 1) && !has_raise(p, min, cur, 0) ==> {
            &&& 1 <= cur.val <= 6
            &&& is_endgame(p, dies_left, players_left) ==> o / 2 + o % 2 + held(p, cur) <= u8::MAX
        }
    }
}

proof fn lemma_scan_none(p: PlayerInfo, min: int, cur: DieGuess, start: int, slack: int, k: int)
    requires
        0 <= k <= 6,
        0 <= start < 6,
        scan_from(p, min, cur, start, slack, k) is None,
    ensures
        forall|j: int| k <= j < 6 ==> !#[trigger] backs_raise(p, min, cur, rot(j, start), slack),
    decreases 6 - k,
{
    if k < 6 {
        lemma_scan_none(p, min, cur, start, slack, k + 1);
    }
}

proof fn lemma_scan_covers(p: PlayerInfo, min: int, cur: DieGuess, start: int, slack: int)
    requires
        0 <= start < 6,
        scan_from(p, min, cur, start, slack, 0) is None,
    ensures
        !has_raise(p, min, cur, slack),
{
    lemma_scan_none(p, min, cur, start, slack, 0);
    assert forall|i: int| 0 <= i < 6 implies !backs_raise(p, min, cur, i, slack) by {
        let j = (i - start + 6) % 6;
        assert(rot(j, start) == i);
    }
}

/// Decides the answer of the computer player `player` to the bid
/// `current_guess`, with `dies_left` dice in the game, `players_left` players,
/// and the random values `draws`.
pub fn choose_move(
    player: PlayerInfo,
    dies_left: u8,
    players_left: usize,
    current_guess: DieGuess,
    draws: Draws,
) -> (m: Move)
    requires
        move_fits(player, dies_left, players_left, current_guess),
        draws_fit(player, dies_left, current_guess, draws),
    ensures
        m == move_spec(player, dies_left, players_left, current_guess, draws),
{
    let ghost cur = current_guess;
    let other_dies_left = dies_left - player.dies_left;
    let mod_dies_left = other_dies_left % 6;
    let full_dies_left = (other_dies_left - mod_dies_left) / 6;
    let endgame = (other_dies_left < 4) || (players_left < 3);
    let new_round = current_guess.cnt == 0 || current_guess.val == 0;
    let bluff = draws.bluff;

    if new_round {
        let mut rg = DieGuess::default();
        if bluff > 0 {
            rg.val = draws.face;
            rg.cnt = 1;
            if endgame {
                if player.dies_left > 2 {
                    rg.cnt += draws.coin;
                }
            } else {
                if full_dies_left > 1 {
                    rg.cnt += draws.extra;
                }
            }
        } else {
            rg = player.dies[0];
            let mut d: usize = 1;
            while d < 6
                invariant
                    1 <= d <= 6,
                    rg == best_upto(player.dies@, d - 1),
                    exists|i: int| 0 <= i < d && player.dies@[i] == rg,
                decreases 6 - d,
            {
                if rg < player.dies[d] {
                    rg = player.dies[d];
                }
                d += 1;
            }
            rg.cnt += full_dies_left;
            if rg.cnt > 1 {
                rg.cnt -= 1;
            }
            if mod_dies_left > 3 {
                rg.cnt += draws.coin;
            }
        }
        return Move::AtLeast(rg);
    }
    if bluff > 0 {
        let mut max_bluff: u8 = 1;
        if !endgame {
            let mdl = dies_left % 6;
            let fdl = (dies_left - mdl) / 6;
            max_bluff = fdl;
            if mdl > 3 {
                max_bluff += 1;
            }
        }
        if player.dies_left > 3 {
            max_bluff += 1;
        }
        if current_guess.cnt < max_bluff {
            return Move::AtLeast(DieGuess { val: current_guess.val, cnt: current_guess.cnt + 1 });
        }
        if (current_guess.cnt == max_bluff) && current_guess.val < 6 {
            return Move::AtLeast(DieGuess { val: draws.raise_to, cnt: current_guess.cnt });
        }
    }
    // playing the odds
    let mut min_guess = full_dies_left;
    if mod_dies_left > 3 {
        min_guess += 1;
    }
    let ghost min = expected(player, dies_left);
    let start_pos = draws.start;
    let mut d: usize = 0;
    while d < 6
        invariant
            d <= 6,
            start_pos < 6,
            start_pos == draws.start,
            min_guess == min,
            min == expected(player, dies_left),
            forall|i: int| 0 <= i < 6 ==> player.dies[i].cnt + min <= u8::MAX,
            scan_from(player, min, cur, start_pos as int, 1, 0) == scan_from(player, min, cur, start_pos as int, 1, d as int),
            current_guess == cur,
            !cur.is_opening(),
            !(draws.bluff > 0 && bluff_raise(player, dies_left, players_left, cur, draws) is Some),
        decreases 6 - d,
    {
        let i = (d + start_pos) % 6;
        let tgc = player.dies[i].cnt + min_guess;
        if tgc > 1 {
            let mut rd = DieGuess { val: (i + 1) as u8, cnt: tgc - 1 };
            assert(rd == believed(player, min, rot(d as int, start_pos as int), 1));
            if rd > current_guess {
                assert(backs_raise(player, min, cur, rot(d as int, start_pos as int), 1));
                assert(scan_from(player, min, cur, start_pos as int, 1, d as int) == Some(rd));
                if rd.val > current_guess.val {
                    rd.cnt = current_guess.cnt;
                } else {
                    rd.cnt = current_guess.cnt + 1;
                }
                return Move::AtLeast(rd);
            }
        }
        d += 1;
    }
    let mut d: usize = 0;
    while d < 6
        invariant
            d <= 6,
            start_pos < 6,
            start_pos == draws.start,
            min_guess == min,
            min == expected(player, dies_left),
            forall|i: int| 0 <= i < 6 ==> player.dies[i].cnt + min <= u8::MAX,
            scan_from(player, min, cur, start_pos as int, 1, 0) is None,
            scan_from(player, min, cur, start_pos as int, 0, 0) == scan_from(player, min, cur, start_pos as int, 0, d as int),
            current_guess == cur,
            !cur.is_opening(),
            !(draws.bluff > 0 && bluff_raise(player, dies_left, players_left, cur, draws) is Some),
        decreases 6 - d,
    {
        let i = (d + start_pos) % 6;
        let tgc = player.dies[i].cnt + min_guess;
        if tgc > 0 {
            let mut rd = DieGuess { val: (i + 1) as u8, cnt: tgc };
            assert(rd == believed(player, min, rot(d as int, start_pos as int), 0));
            if rd > current_guess {
                assert(backs_raise(player, min, cur, rot(d as int, start_pos as int), 0));
                assert(scan_from(player, min, cur, start_pos as int, 0, d as int) == Some(rd));
                if rd.val > current_guess.val {
                    rd.cnt = current_guess.cnt;
                } else {
                    rd.cnt = current_guess.cnt + 1;
                }
                return Move::AtLeast(rd);
            }
        }
        d += 1;
    }
    proof {
        lemma_scan_covers(player, min, cur, start_pos as int, 1);
        lemma_scan_covers(player, min, cur, start_pos as int, 0);
    }
    // need to call it
    let held_cnt = player.dies[(current_guess.val - 1) as usize].cnt;
    if endgame {
        let call_it_even = draws.coin;
        assert(other_dies_left >> 1 == other_dies_left / 2) by (bit_vector);
        if (call_it_even > 0 && current_guess.cnt <= (other_dies_left >> 1) + (other_dies_left % 2) + held_cnt)
            || (held_cnt == current_guess.cnt) {
            return Move::Exact;
        }
    } else {
        if (held_cnt + min_guess == current_guess.cnt) && ((mod_dies_left == 0) || (mod_dies_left == 1)
            || (mod_dies_left == 5)) {
            return Move::Exact;
        }
    }
    Move::No
}

/// Every face of the hand is a face of the die, 1 to 6.
pub open spec fn faces_valid(p: PlayerInfo) -> bool {
    forall|i: int| 0 <= i < 6 ==> 1 <= #[trigger] p.dies[i].val <= 6
}

proof fn lemma_best_upto(dies: Seq<DieGuess>, k: int)
    requires
        0 <= k < dies.len(),
    ensures
        exists|i: int| 0 <= i <= k && dies[i] == best_upto(dies, k),
        forall|j: int| 0 <= j <= k ==> !bid_below(best_upto(dies, k), #[trigger] dies[j]),
    decreases k,
{
    if k > 0 {
        lemma_best_upto(dies, k - 1);
        if bid_below(best_upto(dies, k - 1), dies[k]) {
            assert(dies[k] == best_upto(dies, k));
        } else {
            let i = choose|i: int| 0 <= i <= k - 1 && dies[i] == best_upto(dies, k - 1);
            assert(dies[i] == best_upto(dies, k));
        }
    } else {
        assert(dies[0] == best_upto(dies, 0));
    }
}

/// An opening bid that is not a bluff names the face of the hand entry with
/// the highest bid: the face the player holds most dice of (the higher face
/// among equals).
pub proof fn lemma_opening_names_best_face(p: PlayerInfo, dies_left: u8, coin: u8)
    ensures
        exists|i: int|
            0 <= i < 6 && #[trigger] p.dies[i].val == opening_bid(p, dies_left, coin).val && (forall|j: int|
                0 <= j < 6 ==> !bid_below(p.dies[i], #[trigger] p.dies[j])),
{
    lemma_best_upto(p.dies@, 5);
    let i = choose|i: int| 0 <= i <= 5 && p.dies@[i] == best_upto(p.dies@, 5);
    assert(p.dies[i].val == opening_bid(p, dies_left, coin).val);
}

/// The count a computer player opens with when it holds `held` dice of its
/// best face: those and one die per full set of six among the others' dice,
/// one less when that makes more than one, and the coin on top when more
/// than three of the others' dice are left over.
pub open spec fn opening_count(held: int, others_dice: int, coin: int) -> int {
    let believed = held + others_dice / 6;
    (if believed > 1 { believed - 1 } else { believed }) + if others_dice % 6 > 3 { coin } else { 0 }
}

/// Without a bluff, a computer player opens a round with a bid on the face
/// of the hand entry with the highest bid (the face it holds most of, the
/// higher face among equals), counting as `opening_count` says.
pub proof fn lemma_opening_move(p: PlayerInfo, dies_left: u8, players_left: usize, cur: DieGuess, d: Draws)
    requires
        move_fits(p, dies_left, players_left, cur),
        cur.is_opening(),
        d.bluff == 0,
    ensures
        exists|i: int|
            0 <= i < 6 && (forall|j: int| 0 <= j < 6 ==> !bid_below(p.dies[i], #[trigger] p.dies[j]))
                && move_spec(p, dies_left, players_left, cur, d) == Move::AtLeast(
                DieGuess {
                    val: #[trigger] p.dies[i].val,
                    cnt: opening_count(p.dies[i].cnt as int, dies_left - p.dies_left, d.coin as int) as u8,
                },
            ),
{
    lemma_best_upto(p.dies@, 5);
    let i = choose|i: int| 0 <= i <= 5 && p.dies@[i] == best_upto(p.dies@, 5);
    assert(p.dies[i] == best_upto(p.dies@, 5));
}

/// Once a round is open, a computer player that believes in some raise
/// raises, and without a bluff its raise names a face whose dice back it:
/// one it holds with the expected dice less one if any face allows that,
/// else one with all the expected dice.
pub proof fn lemma_raise_is_backed(p: PlayerInfo, dies_left: u8, players_left: usize, cur: DieGuess, d: Draws)
    requires
        move_fits(p, dies_left, players_left, cur),
        draws_fit(p, dies_left, cur, d),
        !cur.is_opening(),
        d.bluff == 0,
    ensures
        has_raise(p, expected(p, dies_left), cur, 1) || has_raise(p, expected(p, dies_left), cur, 0)
            ==> move_spec(p, dies_left, players_left, cur, d) is AtLeast,
        move_spec(p, dies_left, players_left, cur, d) matches Move::AtLeast(g) ==> 1 <= g.val <= 6 && (
        has_raise(p, expected(p, dies_left), cur, 1) ==> backs_raise(
            p,
            expected(p, dies_left),
            cur,
            g.val - 1,
            1,
        )) && (!has_raise(p, expected(p, dies_left), cur, 1) ==> backs_raise(
            p,
            expected(p, dies_left),
            cur,
            g.val - 1,
            0,
        )),
{
    let min = expected(p, dies_left);
    let start = d.start as int;
    if has_raise(p, min, cur, 1) {
        if scan_from(p, min, cur, start, 1, 0) is None {
            lemma_scan_covers(p, min, cur, start, 1);
        }
        lemma_scan_some(p, min, cur, start, 1, 0);
    } else {
        lemma_no_raise_scans_none(p, min, cur, start, 1);
        if has_raise(p, min, cur, 0) {
            if scan_from(p, min, cur, start, 0, 0) is None {
                lemma_scan_covers(p, min, cur, start, 0);
            }
            lemma_scan_some(p, min, cur, start, 0, 0);
        } else {
            lemma_no_raise_scans_none(p, min, cur, start, 0);
        }
    }
}

/// Once a round is open, every bid a computer player makes outbids the bid on
/// the table, and names a face from 1 to 6 when that bid does.
pub proof fn lemma_raise_outbids(p: PlayerInfo, dies_left: u8, players_left: usize, cur: DieGuess, d: Draws)
    requires
        move_fits(p, dies_left, players_left, cur),
        draws_fit(p, dies_left, cur, d),
        !cur.is_opening(),
    ensures
        move_spec(p, dies_left, players_left, cur, d) matches Move::AtLeast(g) ==> bid_below(cur, g) && (
        cur.val <= 6 ==> 1 <= g.val <= 6),
{
    let min = expected(p, dies_left);
    let start = d.start as int;
    if scan_from(p, min, cur, start, 1, 0) is Some {
        lemma_scan_some(p, min, cur, start, 1, 0);
    }
    if scan_from(p, min, cur, start, 0, 0) is Some {
        lemma_scan_some(p, min, cur, start, 0, 0);
    }
}

/// `g` is the least bid on its own face that outbids `cur`: it outbids
/// `cur`, and no bid on the same face with fewer dice does.
pub open spec fn least_raise_on_face(cur: DieGuess, g: DieGuess) -> bool {
    &&& bid_below(cur, g)
    &&& forall|c: u8| bid_below(cur, DieGuess { val: g.val, cnt: c }) ==> g.cnt <= c
}

/// Once a round is open, a computer player's raise is the least bid on its
/// face that outbids the bid on the table: the same count on a higher face,
/// one die more on a face that is not higher.
pub proof fn lemma_raise_is_least(p: PlayerInfo, dies_left: u8, players_left: usize, cur: DieGuess, d: Draws)
    requires
        move_fits(p, dies_left, players_left, cur),
        draws_fit(p, dies_left, cur, d),
        !cur.is_opening(),
    ensures
        move_spec(p, dies_left, players_left, cur, d) matches Move::AtLeast(g) ==> {
            &&& least_raise_on_face(cur, g)
            &&& g.val > cur.val ==> g.cnt == cur.cnt
            &&& g.val <= cur.val ==> g.cnt == cur.cnt + 1
        },
{
    lemma_raise_outbids(p, dies_left, players_left, cur, d);
}

proof fn lemma_no_raise_scans_none(p: PlayerInfo, min: int, cur: DieGuess, start: int, slack: int)
    requires
        0 <= start < 6,
        !has_raise(p, min, cur, slack),
    ensures
        scan_from(p, min, cur, start, slack, 0) is None,
{
    if scan_from(p, min, cur, start, slack, 0) is Some {
        lemma_scan_some(p, min, cur, start, slack, 0);
    }
}

/// Outside the endgame, a computer player that believes in no raise calls the
/// bid "exact" exactly when its own dice of the bid face and the dice it
/// expects among the others add up to the bid count and the others' dice
/// leave 0, 1 or 5 over sets of six; otherwise it calls the bid too high.
pub proof fn lemma_call_outside_endgame(p: PlayerInfo, dies_left: u8, players_left: usize, cur: DieGuess, d: Draws)
    requires
        move_fits(p, dies_left, players_left, cur),
        draws_fit(p, dies_left, cur, d),
        !cur.is_opening(),
        d.bluff == 0,
        !(others(p, dies_left) < 4 || players_left < 3),
        !has_raise(p, expected(p, dies_left), cur, 1),
        !has_raise(p, expected(p, dies_left), cur, 0),
    ensures
        move_spec(p, dies_left, players_left, cur, d) == (if p.dies[cur.val - 1].cnt + expected(p, dies_left)
            == cur.cnt && ((dies_left - p.dies_left) % 6 == 0 || (dies_left - p.dies_left) % 6 == 1 || (
        dies_left - p.dies_left) % 6 == 5) {
            Move::Exact
        } else {
            Move::No
        }),
{
    lemma_no_raise_scans_none(p, expected(p, dies_left), cur, d.start as int, 1);
    lemma_no_raise_scans_none(p, expected(p, dies_left), cur, d.start as int, 0);
}

/// In the endgame, a computer player that believes in no raise calls the bid
/// "exact" when its own dice of the bid face match the bid count, or, on the
/// coin, when the bid count is at most its own dice of the bid face and half
/// the others' dice (rounded up); otherwise it calls the bid too high.
pub proof fn lemma_call_in_endgame(p: PlayerInfo, dies_left: u8, players_left: usize, cur: DieGuess, d: Draws)
    requires
        move_fits(p, dies_left, players_left, cur),
        draws_fit(p, dies_left, cur, d),
        !cur.is_opening(),
        d.bluff == 0,
        others(p, dies_left) < 4 || players_left < 3,
        !has_raise(p, expected(p, dies_left), cur, 1),
        !has_raise(p, expected(p, dies_left), cur, 0),
    ensures
        move_spec(p, dies_left, players_left, cur, d) == (if p.dies[cur.val - 1].cnt == cur.cnt || (d.coin == 1
            && cur.cnt <= (dies_left - p.dies_left + 1) / 2 + p.dies[cur.val - 1].cnt) {
            Move::Exact
        } else {
            Move::No
        }),
{
    lemma_no_raise_scans_none(p, expected(p, dies_left), cur, d.start as int, 1);
    lemma_no_raise_scans_none(p, expected(p, dies_left), cur, d.start as int, 0);
}

proof fn lemma_scan_some(p: PlayerInfo, min: int, cur: DieGuess, start: int, slack: int, k: int)
    requires
        0 <= k <= 6,
        0 <= start < 6,
        scan_from(p, min, cur, start, slack, k) is Some,
    ensures
        exists|i: int|
            0 <= i < 6 && backs_raise(p, min, cur, i, slack) && scan_from(p, min, cur, start, slack, k)->0
                == #[trigger] believed(p, min, i, slack),
    decreases 6 - k,
{
    if !backs_raise(p, min, cur, rot(k, start), slack) {
        lemma_scan_some(p, min, cur, start, slack, k + 1);
    } else {
        let i = rot(k, start);
        assert(scan_from(p, min, cur, start, slack, k)->0 == believed(p, min, i, slack));
    }
}

/// The move of the computer player `player` on the bid `current_guess`, with
/// `dies_left` dice in the game and `players_left` players; the random values
/// it rests on come from the thread's generator.
pub fn calc_move(player: PlayerInfo, dies_left: u8, players_left: usize, current_guess: DieGuess) -> (m: Move)
    requires
        move_fits(player, dies_left, players_left, current_guess),
    ensures
        exists|d: Draws|
            d.bluff == 0 && draws_fit(player, dies_left, current_guess, d) && m == move_spec(
                player,
                dies_left,
                players_left,
                current_guess,
                d,
            ),
        current_guess.is_opening() ==> m is AtLeast,
        current_guess.is_opening() && faces_valid(player) ==> (m matches Move::AtLeast(g) ==> 1 <= g.val <= 6),
        !current_guess.is_opening() ==> (m matches Move::AtLeast(g) ==> bid_below(current_guess, g)),
        !current_guess.is_opening() && current_guess.val <= 6 ==> (m matches Move::AtLeast(g) ==> 1 <= g.val
            <= 6),
        !current_guess.is_opening() ==> (m matches Move::AtLeast(g) ==> least_raise_on_face(current_guess, g)),
        current_guess.is_opening() ==> exists|i: int, c: int|
            #![trigger opening_count(player.dies[i].cnt as int, dies_left - player.dies_left, c)]
            0 <= i < 6 && 0 <= c <= 1 && (forall|j: int| 0 <= j < 6 ==> !bid_below(player.dies[i], #[trigger] player.dies[j]))
                && m == Move::AtLeast(
                DieGuess {
                    val: player.dies[i].val,
                    cnt: opening_count(player.dies[i].cnt as int, dies_left - player.dies_left, c) as u8,
                },
            ),
        !current_guess.is_opening() && (has_raise(player, expected(player, dies_left), current_guess, 1) || has_raise(
            player,
            expected(player, dies_left),
            current_guess,
            0,
        )) ==> m is AtLeast,
        !current_guess.is_opening() ==> (m matches Move::AtLeast(g) ==> (has_raise(
            player,
            expected(player, dies_left),
            current_guess,
            1,
        ) ==> backs_raise(player, expected(player, dies_left), current_guess, g.val - 1, 1)) && (!has_raise(
            player,
            expected(player, dies_left),
            current_guess,
            1,
        ) ==> backs_raise(player, expected(player, dies_left), current_guess, g.val - 1, 0))),
        !current_guess.is_opening() && !(others(player, dies_left) < 4 || players_left < 3) && !has_raise(
            player,
            expected(player, dies_left),
            current_guess,
            1,
        ) && !has_raise(player, expected(player, dies_left), current_guess, 0) ==> m == (if player.dies[current_guess.val
            - 1].cnt + expected(player, dies_left) == current_guess.cnt && ((dies_left - player.dies_left) % 6 == 0
            || (dies_left - player.dies_left) % 6 == 1 || (dies_left - player.dies_left) % 6 == 5) {
            Move::Exact
        } else {
            Move::No
        }),
        !current_guess.is_opening() && (others(player, dies_left) < 4 || players_left < 3) && !has_raise(
            player,
            expected(player, dies_left),
            current_guess,
            1,
        ) && !has_raise(player, expected(player, dies_left), current_guess, 0) ==> {
            &&& m is Exact || m is No
            &&& player.dies[current_guess.val - 1].cnt == current_guess.cnt ==> m is Exact
            &&& player.dies[current_guess.val - 1].cnt != current_guess.cnt && current_guess.cnt > (dies_left
                - player.dies_left + 1) / 2 + player.dies[current_guess.val - 1].cnt ==> m is No
        },
{
    let mut rng = thread_rng();
    let bluff = gen_range_u8(&mut rng, 0, 0);
    let face = gen_range_u8(&mut rng, 1, 6);
    let coin = gen_range_u8(&mut rng, 0, 1);
    let other_dies_left = dies_left - player.dies_left;
    let full_dies_left = (other_dies_left - other_dies_left % 6) / 6;
    let extra = if full_dies_left > 1 {
        gen_range_u8(&mut rng, 1, full_dies_left - 1)
    } else {
        0
    };
    let raise_to = if current_guess.val < 6 {
        gen_range_u8(&mut rng, current_guess.val + 1, 6)
    } else {
        0
    };
    let start = gen_range_usize(&mut rng, 0, 6);
    let draws = Draws { bluff, face, coin, extra, raise_to, start };
    let m = choose_move(player, dies_left, players_left, current_guess, draws);
    proof {
        assert(draws.bluff == 0 && draws_fit(player, dies_left, current_guess, draws));
        lemma_opening_names_best_face(player, dies_left, coin);
        if current_guess.is_opening() {
            lemma_opening_move(player, dies_left, players_left, current_guess, draws);
            let i = choose|i: int|
                0 <= i < 6 && (forall|j: int| 0 <= j < 6 ==> !bid_below(player.dies[i], #[trigger] player.dies[j]))
                    && move_spec(player, dies_left, players_left, current_guess, draws) == Move::AtLeast(
                    DieGuess {
                        val: #[trigger] player.dies[i].val,
                        cnt: opening_count(player.dies[i].cnt as int, dies_left - player.dies_left, draws.coin as int) as u8,
                    },
                );
            assert(opening_count(player.dies[i].cnt as int, dies_left - player.dies_left, coin as int) == opening_count(
                player.dies[i].cnt as int,
                dies_left - player.dies_left,
                coin as int,
            ));
        }
        if !current_guess.is_opening() {
            lemma_raise_is_backed(player, dies_left, players_left, current_guess, draws);
            lemma_raise_outbids(player, dies_left, players_left, current_guess, draws);
            lemma_raise_is_least(player, dies_left, players_left, current_guess, draws);
            let min = expected(player, dies_left);
            if !has_raise(player, min, current_guess, 1) && !has_raise(player, min, current_guess, 0) {
                if others(player, dies_left) < 4 || players_left < 3 {
                    lemma_call_in_endgame(player, dies_left, players_left, current_guess, draws);
                } else {
                    lemma_call_outside_endgame(player, dies_left, players_left, current_guess, draws);
                }
            }
        }
    }
    m
}

fn raise_backed(player: PlayerInfo, min: u8, cur: DieGuess, slack: u8) -> (r: bool)
    requires
        slack <= 1,
        forall|i: int| 0 <= i < 6 ==> player.dies[i].cnt + min <= u8::MAX,
    ensures
        r == has_raise(player, min as int, cur, slack as int),
{
    let mut i: usize = 0;
    while i < 6
        invariant
            i <= 6,
            slack <= 1,
            forall|k: int| 0 <= k < 6 ==> player.dies[k].cnt + min <= u8::MAX,
            forall|k: int| 0 <= k < i ==> !backs_raise(player, min as int, cur, k, slack as int),
        decreases 6 - i,
    {
        let tgc = player.dies[i].cnt + min;
        if tgc > slack {
            let rd = DieGuess { val: (i + 1) as u8, cnt: tgc - slack };
            assert(rd == believed(player, min as int, i as int, slack as int));
            if cur < rd {
                assert(backs_raise(player, min as int, cur, i as int, slack as int));
                return true;
            }
        }
        i += 1;
    }
    false
}

/// Whether `calc_move` can decide for `player` on `current_guess`: the
/// counts it adds up fit in a `u8` and a bid it may have to call names a
/// face from 1 to 6.
pub fn can_calc_move(player: PlayerInfo, dies_left: u8, players_left: usize, current_guess: DieGuess) -> (r: bool)
    ensures
        r == move_fits(player, dies_left, players_left, current_guess),
{
    if player.dies_left > dies_left {
        return false;
    }
    let other_dies_left = dies_left - player.dies_left;
    let full = other_dies_left / 6;
    let mut min: u16 = full as u16;
    if other_dies_left % 6 > 3 {
        min += 1;
    }
    let bound = if current_guess.cnt == 0 || current_guess.val == 0 {
        full as u16
    } else {
        min
    };
    let mut d: usize = 0;
    while d < 6
        invariant
            d <= 6,
            bound <= 43,
            current_guess.is_opening() ==> bound == others(player, dies_left) / 6,
            !current_guess.is_opening() ==> bound == expected(player, dies_left),
            forall|k: int| 0 <= k < d ==> player.dies[k].cnt + bound <= u8::MAX,
        decreases 6 - d,
    {
        if player.dies[d].cnt as u16 + bound > 255 {
            assert(player.dies[d as int].cnt + bound > u8::MAX);
            return false;
        }
        d += 1;
    }
    if current_guess.cnt == 0 || current_guess.val == 0 {
        return true;
    }
    let min8 = min as u8;
    let raise1 = raise_backed(player, min8, current_guess, 1);
    let raise0 = raise_backed(player, min8, current_guess, 0);
    if !raise1 && !raise0 {
        if current_guess.val < 1 || current_guess.val > 6 {
            return false;
        }
        let endgame = (other_dies_left < 4) || (players_left < 3);
        let held_cnt = player.dies[(current_guess.val - 1) as usize].cnt;
        if endgame && (other_dies_left / 2) as u16 + (other_dies_left % 2) as u16 + held_cnt as u16 > 255 {
            return false;
        }
    }
    true
}

} // verus!
