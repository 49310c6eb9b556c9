//! Setting up the table, rolling the dice, and settling a challenged bid.

use vstd::prelude::*;
use vstd::set_lib::{set_int_range, lemma_int_range, lemma_len_subset};
use rand::rngs::ThreadRng;
use crate::guess::{DieGuess, bid_below};
use crate::strategy::Move;
use crate::player::{PlayerInfo, hand_count, hand_count_upto, LossOutcome, alive_count, total_dice, table_count, is_last_bidder, minus_one_die, loss_outcome, calculate_result, get_last_player, player_lost};
use crate::random::gen_range_usize;

verus! {

/// The seat `q` places after `start` at a table of `n`.
pub open spec fn seat_after(start: int, q: int, n: int) -> int {
    if start + q < n {
        start + q
    } else {
        start + q - n
    }
}

proof fn lemma_seat_after(start: int, q: int, n: int)
    requires
        0 <= start < n,
        0 <= q < n,
    ensures
        (start + q) % n == seat_after(start, q, n),
        0 <= seat_after(start, q, n) < n,
{
    if start + q < n {
        vstd::arithmetic::div_mod::lemma_small_mod((start + q) as nat, n as nat);
    } else {
        vstd::arithmetic::div_mod::lemma_small_mod((start + q - n) as nat, n as nat);
        vstd::arithmetic::div_mod::lemma_mod_sub_multiples_vanish(start + q, n);
    }
}

/// A player at the start of a game: `starting_dies` dice (as a `u8`), and
/// the faces 1 to 6 in the hand, none rolled yet.
pub open spec fn fresh_hand(p: PlayerInfo, starting_dies: usize) -> bool {
    &&& p.dies_left == starting_dies as u8
    &&& forall|d: int| 0 <= d < 6 ==> #[trigger] p.dies[d].val == d + 1 && p.dies[d].cnt == 0
}

/// Seat `i` of a fresh table with the person at seat `human_pos`.
pub open spec fn fresh_seat(i: int, starting_dies: usize, human_pos: usize, p: PlayerInfo) -> bool {
    &&& fresh_hand(p, starting_dies)
    &&& p.is_human == (i == human_pos)
}

/// Sets up the seats of a new game: every player with `starting_dies` dice
/// and the faces 1 to 6, the person at seat `human_pos`, no names chosen.
pub fn new_players(player_count: usize, starting_dies: usize, human_pos: usize) -> (players: Vec<PlayerInfo>)
    requires
        human_pos < player_count,
    ensures
        players@.len() == player_count,
        forall|i: int|
            0 <= i < player_count ==> fresh_seat(i, starting_dies, human_pos, #[trigger] players@[i])
                && players@[i].name == 0,
{
    let mut players: Vec<PlayerInfo> = Vec::new();
    let mut i: usize = 0;
    while i < player_count
        invariant
            i <= player_count,
            human_pos < player_count,
            players@.len() == i,
            forall|j: int|
                0 <= j < i ==> fresh_seat(j, starting_dies, human_pos, #[trigger] players@[j])
                    && players@[j].name == 0,
        decreases player_count - i,
    {
        let mut player = PlayerInfo::default();
        player.dies_left = starting_dies as u8;
        player.dies = [
            DieGuess { val: 1, cnt: 0 },
            DieGuess { val: 2, cnt: 0 },
            DieGuess { val: 3, cnt: 0 },
            DieGuess { val: 4, cnt: 0 },
            DieGuess { val: 5, cnt: 0 },
            DieGuess { val: 6, cnt: 0 },
        ];
        player.is_human = i == human_pos;
        players.push(player);
        i += 1;
    }
    players
}

/// The name `name` is taken by one of the `p - 1` seats after `start`.
pub open spec fn name_taken_spec(players: Seq<PlayerInfo>, start: int, p: int, name: int) -> bool {
    exists|q: int|
        1 <= q < p && #[trigger] players[seat_after(start, q, players.len() as int)].name == name
}

/// Whether one of the `p - 1` seats after `start` has the name `name`.
pub fn name_taken(players: &Vec<PlayerInfo>, start: usize, p: usize, name: usize) -> (r: bool)
    requires
        start < players@.len(),
        p <= players@.len(),
        start + p <= usize::MAX,
    ensures
        r == name_taken_spec(players@, start as int, p as int, name as int),
{
    let n = players.len();
    let mut q: usize = 1;
    while q < p
        invariant
            n == players@.len(),
            start < n,
            p <= n,
            start + p <= usize::MAX,
            1 <= q,
            q <= p || p == 0,
            forall|k: int|
                1 <= k < q ==> #[trigger] players@[seat_after(start as int, k, n as int)].name != name,
        decreases p - q,
    {
        proof {
            lemma_seat_after(start as int, q as int, n as int);
        }
        if players[(start + q) % n].name == name {
            assert(players@[seat_after(start as int, q as int, n as int)].name == name);
            return true;
        }
        q += 1;
    }
    false
}

/// The names taken by the `p - 1` seats after `start`.
spec fn taken_names(players: Seq<PlayerInfo>, start: int, p: int) -> Seq<int> {
    Seq::new(
        (p - 1) as nat,
        |k: int| players[seat_after(start, k + 1, players.len() as int)].name as int,
    )
}

proof fn lemma_some_name_free(players: Seq<PlayerInfo>, start: int, p: int)
    requires
        1 <= p <= 6,
    ensures
        exists|x: int| 0 <= x < 6 && !name_taken_spec(players, start, p, x),
{
    let s = taken_names(players, start, p);
    if forall|x: int| 0 <= x < 6 ==> name_taken_spec(players, start, p, x) {
        assert(set_int_range(0, 6).subset_of(s.to_set())) by {
            assert forall|x: int| set_int_range(0, 6).contains(x) implies s.to_set().contains(x) by {
                assert(name_taken_spec(players, start, p, x));
                let q = choose|q: int|
                    1 <= q < p && #[trigger] players[seat_after(start, q, players.len() as int)].name
                        == x;
                assert(s[q - 1] == x);
            }
        }
        lemma_int_range(0, 6);
        s.lemma_cardinality_of_set();
        lemma_len_subset(set_int_range(0, 6), s.to_set());
    }
}

/// The name for the computer player `p` places after the person's seat
/// `start`: the first name, from `name_pos` on round the six names, that none
/// of the seats between them has.
pub fn pick_name(players: &Vec<PlayerInfo>, start: usize, p: usize, name_pos: usize) -> (r: usize)
    requires
        start < players@.len(),
        1 <= p <= 6,
        p <= players@.len(),
        start + p <= usize::MAX,
        name_pos < 6,
    ensures
        r < 6,
        !name_taken_spec(players@, start as int, p as int, r as int),
        forall|k: int|
            0 <= k < (r - name_pos + 6) % 6 ==> name_taken_spec(
                players@,
                start as int,
                p as int,
                #[trigger] ((name_pos + k) % 6),
            ),
{
    let mut name = name_pos;
    let ghost mut tries: int = 0;
    proof {
        lemma_some_name_free(players@, start as int, p as int);
    }
    while name_taken(players, start, p, name)
        invariant
            start < players@.len(),
            1 <= p <= 6,
            p <= players@.len(),
            start + p <= usize::MAX,
            name_pos < 6,
            0 <= tries <= 5,
            name < 6,
            name == (name_pos + tries) % 6,
            forall|k: int|
                0 <= k < tries ==> name_taken_spec(
                    players@,
                    start as int,
                    p as int,
                    #[trigger] ((name_pos + k) % 6),
                ),
            exists|x: int| 0 <= x < 6 && !name_taken_spec(players@, start as int, p as int, x),
        decreases 5 - tries,
    {
        proof {
            if tries == 5 {
                let x = choose|x: int| 0 <= x < 6 && !name_taken_spec(players@, start as int, p as int, x);
                let k = (x - name_pos + 6) % 6;
                assert((name_pos + k) % 6 == x);
                assert(k == 5);
            }
        }
        name = (name + 1) % 6;
        proof {
            tries = tries + 1;
        }
    }
    proof {
        assert((name - name_pos + 6) % 6 == tries);
    }
    name
}

proof fn lemma_seat_of(start: int, i: int, n: int)
    requires
        0 <= start < n,
        0 <= i < n,
        i != start,
    ensures
        1 <= (if i > start { i - start } else { i - start + n }) < n,
        seat_after(start, if i > start { i - start } else { i - start + n }, n) == i,
{
}

/// Seats the players of a new game: the person at a random seat, and the
/// computer players, going round from the person, each with a name drawn at
/// random and moved on to the next free one.
fn setup_players(player_count: usize, starting_dies: usize, rng: &mut ThreadRng) -> (players: Vec<PlayerInfo>)
    requires
        1 <= player_count <= 7,
    ensures
        players@.len() == player_count,
        forall|i: int| 0 <= i < player_count ==> fresh_hand(#[trigger] players@[i], starting_dies),
        exists|h: int| 0 <= h < player_count && #[trigger] players@[h].is_human,
        forall|i: int, j: int|
            0 <= i < player_count && 0 <= j < player_count && #[trigger] players@[i].is_human
                && #[trigger] players@[j].is_human ==> i == j,
        forall|i: int| 0 <= i < player_count && !players@[i].is_human ==> #[trigger] players@[i].name < 6,
        forall|i: int, j: int|
            0 <= i < player_count && 0 <= j < player_count && i != j && !players@[i].is_human
                && !players@[j].is_human ==> #[trigger] players@[i].name != #[trigger] players@[j].name,
{
    let player_start_pos = gen_range_usize(rng, 0, player_count);
    let mut players = new_players(player_count, starting_dies, player_start_pos);
    let ghost start = player_start_pos as int;
    let ghost n = player_count as int;
    let mut p: usize = 1;
    while p < player_count
        invariant
            1 <= p <= player_count,
            player_count <= 7,
            start == player_start_pos,
            n == player_count,
            player_start_pos < player_count,
            players@.len() == player_count,
            forall|i: int|
                0 <= i < player_count ==> fresh_seat(i, starting_dies, player_start_pos, #[trigger] players@[i]),
            forall|q: int| 1 <= q < p ==> #[trigger] players@[seat_after(start, q, n)].name < 6,
            forall|q1: int, q2: int|
                1 <= q1 < p && 1 <= q2 < p && q1 != q2 ==> #[trigger] players@[seat_after(start, q1, n)].name
                    != #[trigger] players@[seat_after(start, q2, n)].name,
        decreases player_count - p,
    {
        let name_pos = gen_range_usize(rng, 0, 6);
        let name = pick_name(&players, player_start_pos, p, name_pos);
        proof {
            lemma_seat_after(start, p as int, n);
        }
        let seat = (player_start_pos + p) % player_count;
        let mut pl = players[seat];
        pl.name = name;
        let ghost old_players = players@;
        players.set(seat, pl);
        proof {
            assert forall|i: int| 0 <= i < player_count implies fresh_seat(
                i,
                starting_dies,
                player_start_pos,
                #[trigger] players@[i],
            ) by {
                assert(fresh_seat(i, starting_dies, player_start_pos, old_players[i]));
                if i == seat as int {
                    assert forall|d: int| 0 <= d < 6 implies #[trigger] players@[i].dies[d]
                        == old_players[i].dies[d] by {}
                }
            }
            assert forall|q: int| 1 <= q < p implies #[trigger] players@[seat_after(start, q, n)]
                == old_players[seat_after(start, q, n)] by {
                lemma_seat_after(start, q, n);
            }
            assert forall|q1: int| 1 <= q1 < p implies #[trigger] players@[seat_after(start, q1, n)].name
                != name by {
                if players@[seat_after(start, q1, n)].name == name {
                    assert(name_taken_spec(old_players, start, p as int, name as int));
                }
            }
        }
        p += 1;
    }
    proof {
        assert(players@[start].is_human);
        assert forall|i: int| 0 <= i < player_count && !players@[i].is_human implies #[trigger] players@[i].name
            < 6 by {
            lemma_seat_of(start, i, n);
        }
        assert forall|i: int, j: int|
            0 <= i < player_count && 0 <= j < player_count && i != j && !players@[i].is_human
                && !players@[j].is_human implies #[trigger] players@[i].name != #[trigger] players@[j].name by {
            lemma_seat_of(start, i, n);
            lemma_seat_of(start, j, n);
            let qi = if i > start { i - start } else { i - start + n };
            let qj = if j > start { j - start } else { j - start + n };
            assert(players@[seat_after(start, qi, n)].name != players@[seat_after(start, qj, n)].name);
        }
    }
    players
}

/// The dice of a hand: the counts of its six entries added up.
pub open spec fn hand_size(p: PlayerInfo) -> int {
    p.dies[0].cnt + p.dies[1].cnt + p.dies[2].cnt + p.dies[3].cnt + p.dies[4].cnt + p.dies[5].cnt
}

/// How many of the rolled `faces` show hand entry `d`.
pub open spec fn face_tally(faces: Seq<usize>, d: int) -> int
    decreases faces.len(),
{
    if faces.len() == 0 {
        0
    } else {
        face_tally(faces.drop_last(), d) + if faces.last() == d {
            1int
        } else {
            0
        }
    }
}

/// `faces` is a roll of `p`'s dice: one face (a hand entry, 0 to 5) per die.
pub open spec fn valid_roll(p: PlayerInfo, faces: Seq<usize>) -> bool {
    &&& faces.len() == p.dies_left
    &&& forall|i: int| 0 <= i < faces.len() ==> #[trigger] faces[i] < 6
}

/// `q` is `p` with the roll `faces` counted: the same seat, dice and faces,
/// and each hand entry counting the rolled dice that show it.
pub open spec fn tallied(p: PlayerInfo, faces: Seq<usize>, q: PlayerInfo) -> bool {
    &&& q.name == p.name
    &&& q.is_human == p.is_human
    &&& q.dies_left == p.dies_left
    &&& forall|d: int|
        0 <= d < 6 ==> #[trigger] q.dies[d].val == p.dies[d].val && q.dies[d].cnt == face_tally(faces, d)
}

/// `q` is `p` after some roll of `p`'s dice; its hand holds as many dice as
/// the player has.
pub open spec fn rerolled(p: PlayerInfo, q: PlayerInfo) -> bool {
    &&& exists|faces: Seq<usize>| valid_roll(p, faces) && tallied(p, faces, q)
    &&& hand_size(q) == q.dies_left
}

/// Every rolled die shows exactly one of the six hand entries: over the six
/// entries, the tallies of a roll add up to the number of dice rolled.
pub proof fn lemma_tally_sum(faces: Seq<usize>)
    requires
        forall|i: int| 0 <= i < faces.len() ==> #[trigger] faces[i] < 6,
    ensures
        face_tally(faces, 0) + face_tally(faces, 1) + face_tally(faces, 2) + face_tally(faces, 3)
            + face_tally(faces, 4) + face_tally(faces, 5) == faces.len(),
        forall|d: int| !(0 <= d < 6) ==> face_tally(faces, d) == 0,
    decreases faces.len(),
{
    if faces.len() > 0 {
        assert(faces[faces.len() - 1] < 6);
        lemma_tally_sum(faces.drop_last());
        assert forall|d: int| !(0 <= d < 6) implies face_tally(faces, d) == 0 by {
            assert(face_tally(faces.drop_last(), d) == 0);
        }
    }
}

/// Adding a die to a roll adds one to the tally of the face it shows and
/// leaves the other tallies as they were.
pub proof fn lemma_tally_push(faces: Seq<usize>, f: usize, d: int)
    ensures
        face_tally(faces.push(f), d) == face_tally(faces, d) + if f == d {
            1int
        } else {
            0
        },
{
    assert(faces.push(f).drop_last() =~= faces);
}

/// Counts a roll of a player's dice into the hand: each hand entry counts
/// the dice of the roll `faces` that show it.
pub fn tally_roll(p: PlayerInfo, faces: &[usize]) -> (q: PlayerInfo)
    requires
        valid_roll(p, faces@),
    ensures
        tallied(p, faces@, q),
        hand_size(q) == q.dies_left,
{
    let mut q = p;
    let mut d: usize = 0;
    while d < 6
        invariant
            d <= 6,
            q.name == p.name,
            q.is_human == p.is_human,
            q.dies_left == p.dies_left,
            forall|e: int| 0 <= e < 6 ==> #[trigger] q.dies[e].val == p.dies[e].val,
            forall|e: int| 0 <= e < d ==> #[trigger] q.dies[e].cnt == 0,
        decreases 6 - d,
    {
        let mut entry = q.dies[d];
        entry.cnt = 0;
        q.dies[d] = entry;
        d += 1;
    }
    let mut k: usize = 0;
    while k < faces.len()
        invariant
            k <= faces@.len(),
            valid_roll(p, faces@),
            q.name == p.name,
            q.is_human == p.is_human,
            q.dies_left == p.dies_left,
            forall|e: int| 0 <= e < 6 ==> #[trigger] q.dies[e].val == p.dies[e].val,
            forall|e: int| 0 <= e < 6 ==> #[trigger] q.dies[e].cnt == face_tally(faces@.take(k as int), e),
            hand_size(q) == k,
        decreases faces@.len() - k,
    {
        let face = faces[k];
        proof {
            assert(faces@.take(k + 1).drop_last() =~= faces@.take(k as int));
            assert(faces@[k as int] < 6);
        }
        let mut entry = q.dies[face];
        entry.cnt = entry.cnt + 1;
        q.dies[face] = entry;
        k += 1;
    }
    proof {
        assert(faces@.take(k as int) =~= faces@);
    }
    q
}

/// Rolls every player's dice: each die shows a random face, counted in the
/// hand entry of that face.
fn roll_hands(players: &mut Vec<PlayerInfo>, rng: &mut ThreadRng)
    ensures
        final(players)@.len() == old(players)@.len(),
        forall|i: int| 0 <= i < old(players)@.len() ==> rerolled(old(players)@[i], #[trigger] final(players)@[i]),
{
    let mut i: usize = 0;
    while i < players.len()
        invariant
            i <= players@.len(),
            players@.len() == old(players)@.len(),
            forall|j: int| 0 <= j < i ==> rerolled(old(players)@[j], #[trigger] players@[j]),
            forall|j: int| i <= j < players@.len() ==> #[trigger] players@[j] == old(players)@[j],
        decreases players@.len() - i,
    {
        let p = players[i];
        let mut faces: Vec<usize> = Vec::new();
        let mut k: u8 = 0;
        while k < p.dies_left
            invariant
                k <= p.dies_left,
                faces@.len() == k,
                forall|j: int| 0 <= j < faces@.len() ==> #[trigger] faces@[j] < 6,
            decreases p.dies_left - k,
        {
            let die_val = gen_range_usize(rng, 0, 6);
            faces.push(die_val);
            k += 1;
        }
        let q = tally_roll(p, faces.as_slice());
        proof {
            assert(valid_roll(p, faces@) && tallied(p, faces@, q));
        }
        players.set(i, q);
        i += 1;
    }
}

/// The outcome of a challenged bid.
#[derive(Clone, Copy, Debug)]
pub struct Settlement {
    /// How many dice on the table show the bid face.
    pub actual: u8,
    /// The seat of the player who lost a die; that player starts the next
    /// round.
    pub loser: usize,
    /// What follows from the loss.
    pub outcome: LossOutcome,
}

/// The challenge fails and the bidder loses a die: for "too high" when the
/// dice fall short of the bid, for "exact" when they match it.
pub open spec fn bidder_loses(actual: int, guess: DieGuess, exact: bool) -> bool {
    if exact {
        actual == guess.cnt
    } else {
        actual < guess.cnt
    }
}

/// The rules of a challenge: an "exact" call costs the bidder a die exactly
/// when the dice showing the bid face match the bid count, and costs the
/// caller a die when there are more or fewer; a "too high" call costs the
/// bidder a die exactly when the dice fall short of the bid.
pub proof fn lemma_challenge_rules(actual: int, guess: DieGuess)
    ensures
        bidder_loses(actual, guess, true) <==> actual == guess.cnt,
        actual > guess.cnt ==> !bidder_loses(actual, guess, true) && !bidder_loses(actual, guess, false),
        actual < guess.cnt ==> !bidder_loses(actual, guess, true) && bidder_loses(actual, guess, false),
        bidder_loses(actual, guess, false) <==> actual < guess.cnt,
{
}

proof fn lemma_alive_count_pos(s: Seq<PlayerInfo>, i: int)
    requires
        0 <= i < s.len(),
        s[i].is_alive(),
    ensures
        alive_count(s) >= 1,
        total_dice(s) >= s[i].dies_left,
    decreases s.len(),
{
    if i < s.len() - 1 {
        lemma_alive_count_pos(s.drop_last(), i);
    } else {
        lemma_counts_nonneg(s.drop_last());
    }
}

proof fn lemma_counts_nonneg(s: Seq<PlayerInfo>)
    ensures
        alive_count(s) >= 0,
        total_dice(s) >= 0,
    decreases s.len(),
{
    if s.len() > 0 {
        lemma_counts_nonneg(s.drop_last());
    }
}

/// Settles a challenge of the bid `guess` by the player at `current_player`
/// ("exact" when `exact`, "too high" otherwise): counts the dice showing the
/// bid face, finds who loses a die, and takes it.
fn settle(
    players: &mut Vec<PlayerInfo>,
    players_left: &mut usize,
    dies_left: &mut usize,
    current_player: usize,
    guess: DieGuess,
    exact: bool,
) -> (s: Settlement)
    requires
        current_player < old(players)@.len(),
        old(players)@[current_player as int].is_alive(),
        alive_count(old(players)@) == *old(players_left),
        total_dice(old(players)@) == *old(dies_left),
        table_count(old(players)@, guess.val) <= u8::MAX,
    ensures
        s.actual == table_count(old(players)@, guess.val),
        bidder_loses(s.actual as int, guess, exact) ==> is_last_bidder(
            old(players)@,
            current_player as int,
            s.loser as int,
        ),
        !bidder_loses(s.actual as int, guess, exact) ==> s.loser == current_player,
        final(players)@ == old(players)@.update(s.loser as int, minus_one_die(old(players)@[s.loser as int])),
        s.outcome == loss_outcome(final(players)@[s.loser as int], *final(players_left) as int),
        *final(players_left) == alive_count(final(players)@),
        *final(players_left) == *old(players_left) - (if old(players)@[s.loser as int].dies_left == 1 {
            1int
        } else {
            0
        }),
        *final(dies_left) == total_dice(final(players)@),
        *final(dies_left) == *old(dies_left) - 1,
{
    let guess_cnt = calculate_result(players.as_slice(), guess.val);
    let lost = if exact {
        guess_cnt == guess.cnt
    } else {
        guess_cnt < guess.cnt
    };
    let looser = if lost {
        get_last_player(players.as_slice(), current_player)
    } else {
        current_player
    };
    proof {
        lemma_alive_count_pos(players@, looser as int);
    }
    let outcome = player_lost(players, looser, players_left);
    *dies_left -= 1;
    Settlement { actual: guess_cnt, loser: looser, outcome }
}

proof fn lemma_same_dice(s: Seq<PlayerInfo>, t: Seq<PlayerInfo>)
    requires
        s.len() == t.len(),
        forall|i: int| 0 <= i < s.len() ==> #[trigger] s[i].dies_left == t[i].dies_left,
    ensures
        alive_count(s) == alive_count(t),
        total_dice(s) == total_dice(t),
    decreases s.len(),
{
    if s.len() > 0 {
        lemma_same_dice(s.drop_last(), t.drop_last());
    }
}

proof fn lemma_uniform_dice(s: Seq<PlayerInfo>, c: int)
    requires
        c >= 1,
        forall|i: int| 0 <= i < s.len() ==> #[trigger] s[i].dies_left == c,
    ensures
        alive_count(s) == s.len(),
        total_dice(s) == c * s.len(),
    decreases s.len(),
{
    if s.len() > 0 {
        lemma_uniform_dice(s.drop_last(), c);
        assert(c * s.len() == c * (s.len() - 1) + c) by (nonlinear_arith);
    }
}

/// The players of a game, with the number of players that still have dice
/// and the number of dice left in the game.
pub struct Table {
    players: Vec<PlayerInfo>,
    players_left: usize,
    dies_left: usize,
}

impl View for Table {
    type V = Seq<PlayerInfo>;

    closed spec fn view(&self) -> Seq<PlayerInfo> {
        self.players@
    }
}

impl Table {
    /// The counts agree with the players: `players_left` players have dice,
    /// and they hold `dies_left` dice.
    #[verifier::type_invariant]
    spec fn counts_agree(self) -> bool {
        &&& alive_count(self.players@) == self.players_left
        &&& total_dice(self.players@) == self.dies_left
    }

    /// How many players still have dice.
    pub closed spec fn left(self) -> usize {
        self.players_left
    }

    /// How many dice are left in the game.
    pub closed spec fn dice(self) -> usize {
        self.dies_left
    }

    fn empty() -> (t: Table)
        ensures
            t@ == Seq::<PlayerInfo>::empty(),
    {
        Table { players: Vec::new(), players_left: 0, dies_left: 0 }
    }

    /// Seats the players of a new game (see `setup_players`): every player
    /// with `starting_dies` dice, the person at a random seat, the computer
    /// players with different names.
    pub fn new(player_count: usize, starting_dies: usize, rng: &mut ThreadRng) -> (t: Table)
        requires
            1 <= player_count <= 7,
            1 <= starting_dies <= u8::MAX,
        ensures
            t@.len() == player_count,
            forall|i: int| 0 <= i < player_count ==> fresh_hand(#[trigger] t@[i], starting_dies),
            exists|h: int| 0 <= h < player_count && #[trigger] t@[h].is_human,
            forall|i: int, j: int|
                0 <= i < player_count && 0 <= j < player_count && #[trigger] t@[i].is_human
                    && #[trigger] t@[j].is_human ==> i == j,
            forall|i: int| 0 <= i < player_count && !t@[i].is_human ==> #[trigger] t@[i].name < 6,
            forall|i: int, j: int|
                0 <= i < player_count && 0 <= j < player_count && i != j && !t@[i].is_human
                    && !t@[j].is_human ==> #[trigger] t@[i].name != #[trigger] t@[j].name,
            t.left() == player_count,
            t.dice() == starting_dies * player_count,
    {
        let players = setup_players(player_count, starting_dies, rng);
        proof {
            assert forall|i: int| 0 <= i < players@.len() implies #[trigger] players@[i].dies_left
                == starting_dies by {
                assert(fresh_hand(players@[i], starting_dies));
            }
            lemma_uniform_dice(players@, starting_dies as int);
            assert(starting_dies * player_count <= 255 * 7) by (nonlinear_arith)
                requires
                    starting_dies <= 255,
                    player_count <= 7,
            ;
        }
        Table { players, players_left: player_count, dies_left: starting_dies * player_count }
    }

    /// The players, seat by seat.
    pub fn players(&self) -> (r: &Vec<PlayerInfo>)
        ensures
            r@ == self@,
    {
        &self.players
    }

    /// How many players still have dice.
    pub fn players_left(&self) -> (r: usize)
        ensures
            r == self.left(),
            r == alive_count(self@),
    {
        proof {
            use_type_invariant(self);
        }
        self.players_left
    }

    /// How many dice are left in the game.
    pub fn dies_left(&self) -> (r: usize)
        ensures
            r == self.dice(),
            r == total_dice(self@),
    {
        proof {
            use_type_invariant(self);
        }
        self.dies_left
    }

    /// Rolls every player's dice: each die shows a random face, counted in
    /// the hand entry of that face.
    pub fn roll_dice(&mut self, rng: &mut ThreadRng)
        ensures
            final(self)@.len() == old(self)@.len(),
            forall|i: int| 0 <= i < old(self)@.len() ==> rerolled(old(self)@[i], #[trigger] final(self)@[i]),
            final(self).left() == old(self).left(),
            final(self).dice() == old(self).dice(),
    {
        proof {
            use_type_invariant(&*self);
        }
        let mut t = Table::empty();
        std::mem::swap(self, &mut t);
        let Table { mut players, players_left, dies_left } = t;
        let ghost before = players@;
        roll_hands(&mut players, rng);
        proof {
            assert forall|i: int| 0 <= i < before.len() implies #[trigger] before[i].dies_left
                == players@[i].dies_left by {
                assert(rerolled(before[i], players@[i]));
            }
            lemma_same_dice(before, players@);
        }
        *self = Table { players, players_left, dies_left };
    }

    /// Settles a challenge of the bid `guess` by the player at
    /// `current_player` ("exact" when `exact`, "too high" otherwise): counts
    /// the dice showing the bid face, finds who loses a die, and takes it.
    pub fn settle_challenge(&mut self, current_player: usize, guess: DieGuess, exact: bool) -> (s: Settlement)
        requires
            current_player < old(self)@.len(),
            old(self)@[current_player as int].is_alive(),
            table_count(old(self)@, guess.val) <= u8::MAX,
        ensures
            s.actual == table_count(old(self)@, guess.val),
            bidder_loses(s.actual as int, guess, exact) ==> is_last_bidder(
                old(self)@,
                current_player as int,
                s.loser as int,
            ),
            !bidder_loses(s.actual as int, guess, exact) ==> s.loser == current_player,
            exact && s.actual == guess.cnt ==> is_last_bidder(old(self)@, current_player as int, s.loser as int),
            exact && s.actual != guess.cnt ==> s.loser == current_player,
            !exact && s.actual < guess.cnt ==> is_last_bidder(old(self)@, current_player as int, s.loser as int),
            !exact && s.actual >= guess.cnt ==> s.loser == current_player,
            final(self)@ == old(self)@.update(s.loser as int, minus_one_die(old(self)@[s.loser as int])),
            final(self).left() == old(self).left() - (if old(self)@[s.loser as int].dies_left == 1 {
                1int
            } else {
                0
            }),
            final(self).dice() == old(self).dice() - 1,
            s.outcome == loss_outcome(final(self)@[s.loser as int], final(self).left() as int),
    {
        proof {
            use_type_invariant(&*self);
        }
        let mut t = Table::empty();
        std::mem::swap(self, &mut t);
        let Table { mut players, mut players_left, mut dies_left } = t;
        let s = settle(&mut players, &mut players_left, &mut dies_left, current_player, guess, exact);
        *self = Table { players, players_left, dies_left };
        s
    }
}

/// Where a round stands: whose turn it is, and the bid on the table.
#[derive(Clone, Copy, Debug)]
pub struct Round {
    pub current_player: usize,
    pub guess: DieGuess,
}

impl Round {
    /// A round that starts at seat `current_player`, with no bid yet.
    pub fn start(current_player: usize) -> (r: Round)
        ensures
            r.current_player == current_player,
            r.guess == (DieGuess { val: 0, cnt: 0 }),
    {
        Round { current_player, guess: DieGuess::default() }
    }
}

/// What one turn did.
#[derive(Clone, Copy, Debug)]
pub enum Turn {
    /// The seat has no dice; the turn passed on.
    Skipped,
    /// A new bid stands; the turn passed on.
    Raised,
    /// The bid was challenged and settled; the round is over.
    Settled(Settlement),
}

impl Table {
    /// Plays one turn of a round: a seat without dice passes the turn on;
    /// a raise becomes the bid on the table and passes the turn on; a
    /// challenge is settled, and the player who lost a die starts the next
    /// round, with no bid yet. `mv` is the move of the player whose turn it
    /// is, where that player still has dice.
    pub fn play_turn(&mut self, round: &mut Round, mv: Option<Move>) -> (t: Turn)
        requires
            old(round).current_player < old(self)@.len(),
            old(self)@[old(round).current_player as int].is_alive() ==> mv is Some,
            old(self)@[old(round).current_player as int].is_alive() && !old(round).guess.is_opening() ==> (
            mv matches Some(Move::AtLeast(g)) ==> bid_below(old(round).guess, g)),
            old(self)@[old(round).current_player as int].is_alive() ==> (mv matches Some(m) ==> (!(
            m is AtLeast) ==> table_count(old(self)@, old(round).guess.val) <= u8::MAX)),
        ensures
            final(round).current_player < final(self)@.len(),
            final(self)@.len() == old(self)@.len(),
            !old(self)@[old(round).current_player as int].is_alive() ==> {
                &&& t is Skipped
                &&& final(self)@ == old(self)@
                &&& final(self).left() == old(self).left()
                &&& final(self).dice() == old(self).dice()
                &&& final(round).guess == old(round).guess
                &&& final(round).current_player == (old(round).current_player + 1) % (old(self)@.len() as int)
            },
            old(self)@[old(round).current_player as int].is_alive() ==> (mv matches Some(Move::AtLeast(g))
                ==> {
                &&& t is Raised
                &&& final(self)@ == old(self)@
                &&& final(self).left() == old(self).left()
                &&& final(self).dice() == old(self).dice()
                &&& final(round).guess == g
                &&& !old(round).guess.is_opening() ==> bid_below(old(round).guess, final(round).guess)
                &&& final(round).current_player == (old(round).current_player + 1) % (old(self)@.len() as int)
            }),
            old(self)@[old(round).current_player as int].is_alive() ==> (mv matches Some(m) ==> (!(
            m is AtLeast) ==> (t matches Turn::Settled(s) && {
                &&& s.actual == table_count(old(self)@, old(round).guess.val)
                &&& bidder_loses(s.actual as int, old(round).guess, m is Exact) ==> is_last_bidder(
                    old(self)@,
                    old(round).current_player as int,
                    s.loser as int,
                )
                &&& !bidder_loses(s.actual as int, old(round).guess, m is Exact) ==> s.loser
                    == old(round).current_player
                &&& m is Exact && s.actual == old(round).guess.cnt ==> is_last_bidder(
                    old(self)@,
                    old(round).current_player as int,
                    s.loser as int,
                )
                &&& m is Exact && s.actual != old(round).guess.cnt ==> s.loser == old(round).current_player
                &&& m is No && s.actual < old(round).guess.cnt ==> is_last_bidder(
                    old(self)@,
                    old(round).current_player as int,
                    s.loser as int,
                )
                &&& m is No && s.actual >= old(round).guess.cnt ==> s.loser == old(round).current_player
                &&& final(self)@ == old(self)@.update(
                    s.loser as int,
                    minus_one_die(old(self)@[s.loser as int]),
                )
                &&& final(self).left() == old(self).left() - (if old(self)@[s.loser as int].dies_left == 1 {
                    1int
                } else {
                    0
                })
                &&& final(self).dice() == old(self).dice() - 1
                &&& s.outcome == loss_outcome(final(self)@[s.loser as int], final(self).left() as int)
                &&& final(round).current_player == s.loser
                &&& final(round).guess == (DieGuess { val: 0, cnt: 0 })
            }))),
    {
        let n = self.players.len();
        let cur = round.current_player;
        if self.players[cur].dies_left == 0 {
            round.current_player = next_seat(cur, n);
            return Turn::Skipped;
        }
        match mv {
            Some(Move::AtLeast(g)) => {
                round.guess = g;
                round.current_player = next_seat(cur, n);
                Turn::Raised
            },
            Some(m) => {
                let exact = match m {
                    Move::Exact => true,
                    _ => false,
                };
                let s = self.settle_challenge(cur, round.guess, exact);
                round.current_player = s.loser;
                round.guess = DieGuess::default();
                Turn::Settled(s)
            },
            None => Turn::Skipped,
        }
    }
}

/// The seat after `current` at a table of `player_count`, going round.
pub fn next_seat(current: usize, player_count: usize) -> (r: usize)
    requires
        current < player_count,
    ensures
        r == (current + 1) % (player_count as int),
        r < player_count,
{
    (current + 1) % player_count
}

/// The hand entries name the faces 1 to 6 in order.
pub open spec fn standard_faces(p: PlayerInfo) -> bool {
    forall|d: int| 0 <= d < 6 ==> #[trigger] p.dies[d].val == d + 1
}

/// The dice on the table showing each of the six faces.
pub open spec fn dice_by_face(players: Seq<PlayerInfo>) -> int {
    table_count(players, 1) + table_count(players, 2) + table_count(players, 3) + table_count(players, 4)
        + table_count(players, 5) + table_count(players, 6)
}

proof fn lemma_hand_by_face(p: PlayerInfo)
    requires
        standard_faces(p),
    ensures
        hand_count(p, 1) + hand_count(p, 2) + hand_count(p, 3) + hand_count(p, 4) + hand_count(p, 5)
            + hand_count(p, 6) == hand_size(p),
{
    reveal_with_fuel(hand_count_upto, 7);
    assert(p.dies[0].val == 1 && p.dies[1].val == 2 && p.dies[2].val == 3);
    assert(p.dies[3].val == 4 && p.dies[4].val == 5 && p.dies[5].val == 6);
}

/// Once the dice are rolled, the dice showing each face add up to the dice
/// left in the game: every die shows exactly one face.
pub proof fn lemma_dice_add_up(players: Seq<PlayerInfo>)
    requires
        forall|i: int| 0 <= i < players.len() ==> standard_faces(#[trigger] players[i]),
        forall|i: int| 0 <= i < players.len() ==> hand_size(#[trigger] players[i]) == players[i].dies_left,
    ensures
        dice_by_face(players) == total_dice(players),
    decreases players.len(),
{
    if players.len() > 0 {
        let last = players.last();
        assert(standard_faces(players[players.len() - 1]));
        assert(hand_size(players[players.len() - 1]) == last.dies_left);
        lemma_hand_by_face(last);
        lemma_dice_add_up(players.drop_last());
    }
}

/// The dice of hand entry `d` over all the players.
pub open spec fn entry_total(players: Seq<PlayerInfo>, d: int) -> int
    decreases players.len(),
{
    if players.len() == 0 {
        0
    } else {
        entry_total(players.drop_last(), d) + players.last().dies[d].cnt
    }
}

/// Where a hand lists the faces 1 to 6 in order, the dice showing face `v`
/// are those counted in entry `v - 1`, and no die shows any other value.
pub proof fn lemma_hand_count_by_entry(p: PlayerInfo, v: u8)
    requires
        standard_faces(p),
    ensures
        1 <= v <= 6 ==> hand_count(p, v) == p.dies[v - 1].cnt,
        !(1 <= v <= 6) ==> hand_count(p, v) == 0,
{
    reveal_with_fuel(hand_count_upto, 7);
    assert(p.dies[0].val == 1 && p.dies[1].val == 2 && p.dies[2].val == 3);
    assert(p.dies[3].val == 4 && p.dies[4].val == 5 && p.dies[5].val == 6);
}

/// Where every hand lists the faces 1 to 6 in order, the dice on the table
/// showing face `v` are the dice counted in entry `v - 1` of every hand, and
/// no die on the table shows any other value.
pub proof fn lemma_table_count_by_entry(players: Seq<PlayerInfo>, v: u8)
    requires
        forall|i: int| 0 <= i < players.len() ==> standard_faces(#[trigger] players[i]),
    ensures
        1 <= v <= 6 ==> table_count(players, v) == entry_total(players, v - 1),
        !(1 <= v <= 6) ==> table_count(players, v) == 0,
    decreases players.len(),
{
    if players.len() > 0 {
        assert(standard_faces(players[players.len() - 1]));
        lemma_hand_count_by_entry(players.last(), v);
        lemma_table_count_by_entry(players.drop_last(), v);
    }
}

} // verus!
