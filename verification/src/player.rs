//! The players around the table, the dice they hold, and what happens when
//! one of them loses a die.

use vstd::prelude::*;
use crate::guess::DieGuess;

verus! {

/// A player: an index into the list of computer players' names, whether a
/// person plays this seat, how many dice the player still has, and the hand
/// of the current round, one entry per face.
#[derive(Clone, Copy, Debug)]
pub struct PlayerInfo {
    pub name: usize,
    pub is_human: bool,
    pub dies_left: u8,
    pub dies: [DieGuess; 6],
}

impl PlayerInfo {
    /// A seat with no name chosen, played by the computer, with no dice.
    pub fn default() -> (p: PlayerInfo)
        ensures
            p.name == 0,
            !p.is_human,
            p.dies_left == 0,
            forall|d: int| 0 <= d < 6 ==> p.dies[d].val == 0 && p.dies[d].cnt == 0,
    {
        PlayerInfo {
            name: 0,
            is_human: false,
            dies_left: 0,
            dies: [DieGuess::default(), DieGuess::default(), DieGuess::default(),
                DieGuess::default(), DieGuess::default(), DieGuess::default()],
        }
    }

    /// The player is still in the game.
    pub open spec fn is_alive(self) -> bool {
        self.dies_left > 0
    }
}

/// How many dice of the first `k` entries of a hand show `val`.
pub open spec fn hand_count_upto(dies: Seq<DieGuess>, val: u8, k: int) -> int
    decreases k,
{
    if k <= 0 {
        0
    } else {
        hand_count_upto(dies, val, k - 1) + if dies[k - 1].val == val {
            dies[k - 1].cnt as int
        } else {
            0
        }
    }
}

/// How many of a player's dice show `val`.
pub open spec fn hand_count(p: PlayerInfo, val: u8) -> int {
    hand_count_upto(p.dies@, val, 6)
}

/// How many dice on the whole table show `val`.
pub open spec fn table_count(players: Seq<PlayerInfo>, val: u8) -> int
    decreases players.len(),
{
    if players.len() == 0 {
        0
    } else {
        table_count(players.drop_last(), val) + hand_count(players.last(), val)
    }
}

/// How many players still have dice.
pub open spec fn alive_count(players: Seq<PlayerInfo>) -> int
    decreases players.len(),
{
    if players.len() == 0 {
        0
    } else {
        alive_count(players.drop_last()) + if players.last().is_alive() {
            1int
        } else {
            0
        }
    }
}

/// How many dice are left in the game.
pub open spec fn total_dice(players: Seq<PlayerInfo>) -> int
    decreases players.len(),
{
    if players.len() == 0 {
        0
    } else {
        total_dice(players.drop_last()) + players.last().dies_left
    }
}

/// The seat before `i` at a table of `n`, going round.
pub open spec fn prev_seat(i: int, n: int) -> int {
    if i == 0 {
        n - 1
    } else {
        i - 1
    }
}

/// The seat `k` places before `i` at a table of `n`.
pub open spec fn seat_back(i: int, k: nat, n: int) -> int
    decreases k,
{
    if k == 0 {
        i
    } else {
        prev_seat(seat_back(i, (k - 1) as nat, n), n)
    }
}

/// How many places back from `from` the seat `to` lies (from 1 to `n`).
pub open spec fn places_back(from: int, to: int, n: int) -> int {
    if to < from {
        from - to
    } else {
        from - to + n
    }
}

proof fn lemma_seat_back_closed(i: int, k: nat, n: int)
    requires
        0 <= i <= n,
        1 <= k <= n,
    ensures
        seat_back(i, k, n) == if k <= i {
            i - k
        } else {
            i - k + n
        },
    decreases k,
{
    if k > 1 {
        lemma_seat_back_closed(i, (k - 1) as nat, n);
    } else {
        assert(seat_back(i, 0, n) == i);
    }
}

proof fn lemma_hand_count_nonneg(dies: Seq<DieGuess>, val: u8, k: int)
    ensures
        hand_count_upto(dies, val, k) >= 0,
    decreases k,
{
    if k > 0 {
        lemma_hand_count_nonneg(dies, val, k - 1);
    }
}

proof fn lemma_table_count_prefix(players: Seq<PlayerInfo>, val: u8, i: int)
    requires
        0 <= i <= players.len(),
    ensures
        table_count(players.take(i), val) <= table_count(players, val),
    decreases players.len(),
{
    if i < players.len() {
        assert(players.drop_last().take(i) =~= players.take(i));
        lemma_table_count_prefix(players.drop_last(), val, i);
        lemma_hand_count_nonneg(players.last().dies@, val, 6);
    } else {
        assert(players.take(i) =~= players);
    }
}

proof fn lemma_table_count_remove(t: Seq<PlayerInfo>, val: u8, j: int)
    requires
        0 <= j < t.len(),
    ensures
        table_count(t, val) == table_count(t.remove(j), val) + hand_count(t[j], val),
    decreases t.len(),
{
    if j == t.len() - 1 {
        assert(t.remove(j) =~= t.drop_last());
    } else {
        assert(t.remove(j).drop_last() =~= t.drop_last().remove(j));
        assert(t.remove(j).last() == t.last());
        lemma_table_count_remove(t.drop_last(), val, j);
    }
}

/// The count of a face on the table does not depend on the order of the
/// seats: two tables holding the same players, in any order, count the same.
pub proof fn lemma_table_count_reorder(s: Seq<PlayerInfo>, t: Seq<PlayerInfo>, val: u8)
    requires
        s.to_multiset() == t.to_multiset(),
    ensures
        table_count(s, val) == table_count(t, val),
    decreases s.len(),
{
    s.to_multiset_ensures();
    t.to_multiset_ensures();
    if s.len() == 0 {
        assert(t.len() == 0);
    } else {
        let x = s.last();
        let rest = s.drop_last();
        assert(rest.push(x) =~= s);
        assert(s.to_multiset().count(x) > 0);
        assert(t.contains(x));
        let j = choose|j: int| 0 <= j < t.len() && t[j] == x;
        rest.to_multiset_ensures();
        assert(t.remove(j).to_multiset() =~= rest.to_multiset());
        lemma_table_count_reorder(rest, t.remove(j), val);
        lemma_table_count_remove(t, val, j);
    }
}

/// The count of a face adds up over two lists of players: the count over
/// both together is the sum of their counts, and an empty table counts 0.
pub proof fn lemma_table_count_concat(a: Seq<PlayerInfo>, b: Seq<PlayerInfo>, val: u8)
    ensures
        table_count(a + b, val) == table_count(a, val) + table_count(b, val),
        table_count(Seq::<PlayerInfo>::empty(), val) == 0,
    decreases b.len(),
{
    if b.len() == 0 {
        assert(a + b =~= a);
    } else {
        assert((a + b).drop_last() =~= a + b.drop_last());
        assert((a + b).last() == b.last());
        lemma_table_count_concat(a, b.drop_last(), val);
    }
}

/// Counts the dice on the table that show `val`.
pub fn calculate_result(players: &[PlayerInfo], val: u8) -> (r: u8)
    requires
        table_count(players@, val) <= u8::MAX,
    ensures
        r == table_count(players@, val),
{
    let mut r: u8 = 0;
    let mut i: usize = 0;
    while i < players.len()
        invariant
            i <= players@.len(),
            r == table_count(players@.take(i as int), val),
            table_count(players@, val) <= u8::MAX,
        decreases players@.len() - i,
    {
        let player = players[i];
        let ghost before = r as int;
        proof {
            lemma_table_count_prefix(players@, val, i + 1);
            assert(players@.take(i + 1).drop_last() =~= players@.take(i as int));
        }
        let mut d: usize = 0;
        while d < 6
            invariant
                d <= 6,
                player == players@[i as int],
                i < players@.len(),
                r == before + hand_count_upto(player.dies@, val, d as int),
                before + hand_count(player, val) <= u8::MAX,
            decreases 6 - d,
        {
            proof {
                lemma_hand_count_nonneg(player.dies@, val, d as int);
                assert(hand_count_upto(player.dies@, val, d + 1) <= hand_count(player, val)) by {
                    lemma_hand_count_upto_mono(player.dies@, val, d + 1, 6);
                }
            }
            if player.dies[d].val == val {
                r += player.dies[d].cnt;
            }
            d += 1;
        }
        i += 1;
    }
    proof {
        assert(players@.take(i as int) =~= players@);
    }
    r
}

proof fn lemma_hand_count_upto_mono(dies: Seq<DieGuess>, val: u8, j: int, k: int)
    requires
        j <= k,
    ensures
        hand_count_upto(dies, val, j) <= hand_count_upto(dies, val, k),
    decreases k - j,
{
    if j < k {
        lemma_hand_count_upto_mono(dies, val, j, k - 1);
    }
}

/// Seat `r` is where the last bid came from, seen from seat `cur`: walking
/// back round the table from `cur`, the first seat whose player still has
/// dice.
pub open spec fn is_last_bidder(players: Seq<PlayerInfo>, cur: int, r: int) -> bool {
    let n = players.len() as int;
    &&& 0 <= r < n
    &&& players[r].is_alive()
    &&& 1 <= places_back(cur, r, n) <= n
    &&& r == seat_back(cur, places_back(cur, r, n) as nat, n)
    &&& forall|j: nat| 1 <= j < places_back(cur, r, n) ==> !players[seat_back(cur, j, n)].is_alive()
}

/// There is only one last bidder: two seats that both fit the description
/// are the same seat.
pub proof fn lemma_last_bidder_unique(players: Seq<PlayerInfo>, cur: int, r1: int, r2: int)
    requires
        is_last_bidder(players, cur, r1),
        is_last_bidder(players, cur, r2),
    ensures
        r1 == r2,
{
    let n = players.len() as int;
    let k1 = places_back(cur, r1, n);
    let k2 = places_back(cur, r2, n);
    if k1 < k2 {
        assert(!players[seat_back(cur, k1 as nat, n)].is_alive());
    } else if k2 < k1 {
        assert(!players[seat_back(cur, k2 as nat, n)].is_alive());
    }
}

/// When the seat just before `cur` (going round) still has dice, the last
/// bid came from it.
pub proof fn lemma_last_bidder_is_previous_seat(players: Seq<PlayerInfo>, cur: int)
    requires
        0 <= cur <= players.len(),
        players.len() > 0,
        players[prev_seat(cur, players.len() as int)].is_alive(),
    ensures
        is_last_bidder(players, cur, prev_seat(cur, players.len() as int)),
{
    let n = players.len() as int;
    assert(seat_back(cur, 0, n) == cur);
    assert(seat_back(cur, 1, n) == prev_seat(cur, n));
}

/// Finds the player who made the last bid: walking back round the table from
/// `current_player`, the first seat whose player still has dice.
pub fn get_last_player(players: &[PlayerInfo], current_player: usize) -> (r: usize)
    requires
        current_player <= players@.len(),
        exists|i: int| 0 <= i < players@.len() && players@[i].is_alive(),
    ensures
        is_last_bidder(players@, current_player as int, r as int),
{
    let n = players.len();
    let ghost cur = current_player as int;
    let ghost w = choose|i: int| 0 <= i < players@.len() && players@[i].is_alive();
    let mut r = current_player;
    let mut found = false;
    let ghost mut k: nat = 0;
    while !found
        invariant
            n == players@.len(),
            cur == current_player,
            current_player <= n,
            0 <= w < n,
            players@[w].is_alive(),
            k <= n,
            r as int == seat_back(cur, k, n as int),
            r <= n,
            found ==> k >= 1 && r < n && players@[r as int].is_alive(),
            forall|j: nat| 1 <= j < k ==> !players@[seat_back(cur, j, n as int)].is_alive(),
            !found ==> forall|j: nat| 1 <= j <= k ==> !players@[seat_back(cur, j, n as int)].is_alive(),
        decreases n - k,
    {
        proof {
            let jw = places_back(cur, w, n as int);
            lemma_seat_back_closed(cur, jw as nat, n as int);
            if k == n {
                assert(!players@[seat_back(cur, jw as nat, n as int)].is_alive());
            }
        }
        if r == 0 {
            r = n;
        }
        r -= 1;
        proof {
            k = k + 1;
        }
        if players[r].dies_left > 0 {
            found = true;
        }
    }
    proof {
        lemma_seat_back_closed(cur, k, n as int);
    }
    r
}

/// What follows from a player losing a die.
#[derive(Clone, Copy, Debug, PartialEq, Eq, Structural)]
pub enum LossOutcome {
    /// Only one player has dice left: the game is over.
    GameOver,
    /// The person at the table lost the last die and may watch the rest of
    /// the game or stop.
    HumanEliminated,
    /// A computer player lost the last die.
    NpcEliminated,
    /// The player still has dice.
    Continues,
}

/// The player `p` after losing one die.
pub open spec fn minus_one_die(p: PlayerInfo) -> PlayerInfo {
    PlayerInfo { dies_left: (p.dies_left - 1) as u8, ..p }
}

/// What follows once the loser holds `loser_after` and `players_left` players
/// have dice.
pub open spec fn loss_outcome(loser_after: PlayerInfo, players_left: int) -> LossOutcome {
    if players_left == 1 {
        LossOutcome::GameOver
    } else if loser_after.dies_left == 0 {
        if loser_after.is_human {
            LossOutcome::HumanEliminated
        } else {
            LossOutcome::NpcEliminated
        }
    } else {
        LossOutcome::Continues
    }
}

proof fn lemma_counts_update(s: Seq<PlayerInfo>, i: int, x: PlayerInfo)
    requires
        0 <= i < s.len(),
    ensures
        alive_count(s.update(i, x)) == alive_count(s) - (if s[i].is_alive() { 1int } else { 0 }) + (
        if x.is_alive() {
            1int
        } else {
            0
        }),
        total_dice(s.update(i, x)) == total_dice(s) - s[i].dies_left + x.dies_left,
    decreases s.len(),
{
    let t = s.update(i, x);
    if i == s.len() - 1 {
        assert(t.drop_last() =~= s.drop_last());
    } else {
        assert(t.drop_last() =~= s.drop_last().update(i, x));
        lemma_counts_update(s.drop_last(), i, x);
    }
}

/// Takes a die from `players[looser]`, counts the player out when it was the
/// last one, and says what follows.
pub fn player_lost(players: &mut Vec<PlayerInfo>, looser: usize, players_left: &mut usize) -> (o:
    LossOutcome)
    requires
        looser < old(players)@.len(),
        old(players)@[looser as int].dies_left > 0,
        old(players)@[looser as int].dies_left == 1 ==> *old(players_left) > 0,
    ensures
        final(players)@ == old(players)@.update(looser as int, minus_one_die(old(players)@[looser as int])),
        *final(players_left) == *old(players_left) - (if old(players)@[looser as int].dies_left == 1 {
            1int
        } else {
            0
        }),
        o == loss_outcome(final(players)@[looser as int], *final(players_left) as int),
        total_dice(final(players)@) == total_dice(old(players)@) - 1,
        alive_count(old(players)@) == *old(players_left) ==> alive_count(final(players)@)
            == *final(players_left),
        final(players)@.len() == old(players)@.len(),
        final(players)@[looser as int].dies_left == old(players)@[looser as int].dies_left - 1,
        final(players)@[looser as int].name == old(players)@[looser as int].name,
        final(players)@[looser as int].is_human == old(players)@[looser as int].is_human,
        final(players)@[looser as int].dies == old(players)@[looser as int].dies,
        forall|i: int| 0 <= i < old(players)@.len() && i != looser ==> #[trigger] final(players)@[i] == old(
            players,
        )@[i],
        old(players)@[looser as int].dies_left > 1 ==> *final(players_left) == *old(players_left),
        old(players)@[looser as int].dies_left == 1 ==> *final(players_left) == *old(players_left) - 1,
        *final(players_left) == 1 ==> o == LossOutcome::GameOver,
        *final(players_left) != 1 && old(players)@[looser as int].dies_left > 1 ==> o == LossOutcome::Continues,
        *final(players_left) != 1 && old(players)@[looser as int].dies_left == 1 && old(
            players,
        )@[looser as int].is_human ==> o == LossOutcome::HumanEliminated,
        *final(players_left) != 1 && old(players)@[looser as int].dies_left == 1 && !old(
            players,
        )@[looser as int].is_human ==> o == LossOutcome::NpcEliminated,
{
    let mut p = players[looser];
    p.dies_left -= 1;
    players.set(looser, p);
    if p.dies_left == 0 {
        *players_left -= 1;
    }
    proof {
        assert(p == minus_one_die(old(players)@[looser as int]));
        lemma_counts_update(old(players)@, looser as int, p);
    }
    if *players_left == 1 {
        return LossOutcome::GameOver;
    } else if p.dies_left == 0 {
        if p.is_human {
            return LossOutcome::HumanEliminated;
        } else {
            return LossOutcome::NpcEliminated;
        }
    }
    LossOutcome::Continues
}

/// Whether the dice on the table showing `val` can be counted in a `u8`.
pub fn face_count_fits(players: &[PlayerInfo], val: u8) -> (r: bool)
    ensures
        r == (table_count(players@, val) <= u8::MAX),
{
    let mut total: u16 = 0;
    let mut i: usize = 0;
    while i < players.len()
        invariant
            i <= players@.len(),
            total == table_count(players@.take(i as int), val),
            total <= u8::MAX,
        decreases players@.len() - i,
    {
        let player = players[i];
        proof {
            assert(players@.take(i + 1).drop_last() =~= players@.take(i as int));
            assert(players@.take(i + 1).last() == player);
        }
        let mut d: usize = 0;
        let ghost before = total as int;
        while d < 6
            invariant
                d <= 6,
                player == players@[i as int],
                i < players@.len(),
                before <= u8::MAX,
                before == table_count(players@.take(i as int), val),
                total == before + hand_count_upto(player.dies@, val, d as int),
                total <= u8::MAX,
            decreases 6 - d,
        {
            if player.dies[d].val == val {
                total += player.dies[d].cnt as u16;
            }
            if total > 255 {
                proof {
                    lemma_hand_count_upto_mono(player.dies@, val, d + 1, 6);
                    lemma_table_count_prefix(players@, val, i + 1);
                    assert(players@.take(i + 1).drop_last() =~= players@.take(i as int));
                    assert(players@.take(i + 1).last() == player);
                    assert(table_count(players@.take(i + 1), val) == before + hand_count(player, val));
                }
                return false;
            }
            d += 1;
        }
        assert(table_count(players@.take(i + 1), val) == total);
        i += 1;
    }
    proof {
        assert(players@.take(i as int) =~= players@);
    }
    true
}

} // verus!
