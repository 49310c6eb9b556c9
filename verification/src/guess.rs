//! A bid ("at least `cnt` dice show `val`") and the order in which bids rise.

use std::cmp::Ordering;
use vstd::prelude::*;
use vstd::std_specs::cmp::PartialOrdSpec;

verus! {

/// A bid, or (with `cnt` the number of dice) one entry of a player's hand:
/// the face `val` and how many dice show it.
#[derive(Clone, Copy, Debug, PartialEq, Eq, Structural)]
pub struct DieGuess {
    pub val: u8,
    pub cnt: u8,
}

/// `a` is a lower bid than `b`: fewer dice, or as many dice of a lower face.
pub open spec fn bid_below(a: DieGuess, b: DieGuess) -> bool {
    a.cnt < b.cnt || (a.cnt == b.cnt && a.val < b.val)
}

impl DieGuess {
    /// The empty bid, which stands before the first bid of a round.
    pub fn default() -> (g: DieGuess)
        ensures
            g.val == 0,
            g.cnt == 0,
    {
        DieGuess { val: 0, cnt: 0 }
    }

    /// No bid has been made in this round yet.
    pub open spec fn is_opening(self) -> bool {
        self.cnt == 0 || self.val == 0
    }
}

/// Bids rise by count, then by face: `a < b` exactly when `bid_below(a, b)`.
impl PartialOrd for DieGuess {
    fn partial_cmp(&self, other: &DieGuess) -> (r: Option<Ordering>) {
        if self.cnt < other.cnt || (self.cnt == other.cnt && self.val < other.val) {
            return Some(Ordering::Less);
        }
        if self.cnt == other.cnt && self.val == other.val {
            return Some(Ordering::Equal);
        }
        Some(Ordering::Greater)
    }
}

impl vstd::std_specs::cmp::PartialOrdSpecImpl for DieGuess {
    open spec fn obeys_partial_cmp_spec() -> bool {
        true
    }

    open spec fn partial_cmp_spec(&self, other: &DieGuess) -> Option<Ordering> {
        if bid_below(*self, *other) {
            Some(Ordering::Less)
        } else if *self == *other {
            Some(Ordering::Equal)
        } else {
            Some(Ordering::Greater)
        }
    }
}

/// The least count a bid on face `val` must name to outbid `prev`.
pub open spec fn least_count(prev: DieGuess, val: u8) -> int {
    let c = prev.cnt + if val <= prev.val {
        1int
    } else {
        0
    };
    if c == 0 {
        1
    } else {
        c
    }
}

/// The least count that a bid on face `val` may name after the bid `prev`:
/// the same count on a higher face, else one die more, and at least one.
pub fn min_count(prev: DieGuess, val: u8) -> (r: u8)
    requires
        val <= prev.val ==> prev.cnt < u8::MAX,
    ensures
        r == least_count(prev, val),
{
    let mut min_guess = prev.cnt;
    if val <= prev.val {
        min_guess += 1;
    }
    if min_guess == 0 {
        min_guess = 1;
    }
    min_guess
}

/// Once a bid stands, a bid on face `val` of `cnt` dice reaches the least
/// count exactly when it outbids the standing bid.
pub proof fn lemma_least_count_outbids(prev: DieGuess, val: u8, cnt: u8)
    requires
        !prev.is_opening(),
    ensures
        cnt >= least_count(prev, val) <==> bid_below(prev, DieGuess { val, cnt }),
{
}

/// The bid order is a strict total order: of two different bids exactly one
/// is below the other, no bid is below itself, and it is transitive; more
/// dice make a higher bid, and with as many dice a higher face does.
pub proof fn lemma_bid_order_total(a: DieGuess, b: DieGuess, c: DieGuess)
    ensures
        !bid_below(a, a),
        a != b ==> (bid_below(a, b) <==> !bid_below(b, a)),
        a == b ==> !bid_below(a, b),
        bid_below(a, b) && bid_below(b, c) ==> bid_below(a, c),
        a.cnt < b.cnt ==> bid_below(a, b),
        a.cnt == b.cnt && a.val < b.val ==> bid_below(a, b),
        a.cnt > b.cnt ==> !bid_below(a, b),
{
}

/// Comparing two bids gives an answer for every pair (never `None`), and
/// `Less`, `Equal` and `Greater` agree with the bid order and with equality.
pub proof fn lemma_compare_agrees(a: DieGuess, b: DieGuess)
    ensures
        a.partial_cmp_spec(&b) is Some,
        a.partial_cmp_spec(&b) == Some(Ordering::Less) <==> bid_below(a, b),
        a.partial_cmp_spec(&b) == Some(Ordering::Equal) <==> a == b,
        a.partial_cmp_spec(&b) == Some(Ordering::Greater) <==> bid_below(b, a),
{
}

} // verus!
