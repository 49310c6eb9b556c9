//! The picture of a player's dice: rows of cells, one cell per die.

use vstd::prelude::*;
use crate::player::PlayerInfo;

verus! {

/// One line of the inside of a die: where the pips stand on it.
#[derive(Clone, Copy, Debug, PartialEq, Eq, Structural)]
pub enum PipRow {
    /// No pip.
    Blank,
    /// One pip on the left.
    Left,
    /// One pip on the right.
    Right,
    /// One pip in the middle.
    Center,
    /// Two pips, left and right.
    Both,
}

/// One die's share of a row of the picture.
#[derive(Clone, Copy, Debug, PartialEq, Eq, Structural)]
pub enum Cell {
    /// The top edge of a die.
    Top,
    /// The bottom edge of a die.
    Bottom,
    /// A line of the inside of a die.
    Face(PipRow),
}

/// The pips on line `line` (0 to 2, top to bottom) of the die showing the
/// face of hand entry `d` (0 for a one, up to 5 for a six).
pub open spec fn pip_pattern(d: int, line: int) -> PipRow {
    if d == 0 {
        if line == 1 { PipRow::Center } else { PipRow::Blank }
    } else if d == 1 {
        if line == 0 { PipRow::Left } else if line == 1 { PipRow::Blank } else { PipRow::Right }
    } else if d == 2 {
        if line == 0 { PipRow::Right } else if line == 1 { PipRow::Center } else { PipRow::Left }
    } else if d == 3 {
        if line == 1 { PipRow::Blank } else { PipRow::Both }
    } else if d == 4 {
        if line == 1 { PipRow::Center } else { PipRow::Both }
    } else {
        PipRow::Both
    }
}

/// The pips on line `line` of the die showing the face of hand entry `d`.
pub fn pip_row(d: usize, line: usize) -> (r: PipRow)
    requires
        d < 6,
        line < 3,
    ensures
        r == pip_pattern(d as int, line as int),
{
    if d == 0 {
        if line == 1 { PipRow::Center } else { PipRow::Blank }
    } else if d == 1 {
        if line == 0 { PipRow::Left } else if line == 1 { PipRow::Blank } else { PipRow::Right }
    } else if d == 2 {
        if line == 0 { PipRow::Right } else if line == 1 { PipRow::Center } else { PipRow::Left }
    } else if d == 3 {
        if line == 1 { PipRow::Blank } else { PipRow::Both }
    } else if d == 4 {
        if line == 1 { PipRow::Center } else { PipRow::Both }
    } else {
        PipRow::Both
    }
}

/// Line `line` of the dice of the first `k` hand entries, in order: each
/// entry drawn as many times as dice show its face.
pub open spec fn pip_line_upto(p: PlayerInfo, line: int, k: int) -> Seq<Cell>
    decreases k,
{
    if k <= 0 {
        Seq::empty()
    } else {
        pip_line_upto(p, line, k - 1) + Seq::new(
            p.dies[k - 1].cnt as nat,
            |j: int| Cell::Face(pip_pattern(k - 1, line)),
        )
    }
}

/// Line `line` of the inside of all of a player's dice.
pub open spec fn pip_line(p: PlayerInfo, line: int) -> Seq<Cell> {
    pip_line_upto(p, line, 6)
}

/// `n` copies of `c`.
pub open spec fn cells(c: Cell, n: nat) -> Seq<Cell> {
    Seq::new(n, |j: int| c)
}

/// The picture of a player's dice, top to bottom: the top edges, then a
/// blank line before and after each of the three lines of pips, then the
/// bottom edges. Edges and blank lines have one cell per die the player has.
pub open spec fn dice_picture(p: PlayerInfo) -> Seq<Seq<Cell>> {
    let n = p.dies_left as nat;
    seq![
        cells(Cell::Top, n),
        cells(Cell::Face(PipRow::Blank), n),
        pip_line(p, 0),
        cells(Cell::Face(PipRow::Blank), n),
        pip_line(p, 1),
        cells(Cell::Face(PipRow::Blank), n),
        pip_line(p, 2),
        cells(Cell::Face(PipRow::Blank), n),
        cells(Cell::Bottom, n),
    ]
}

/// The pips on one line of a die.
pub open spec fn pip_count(r: PipRow) -> int {
    match r {
        PipRow::Blank => 0,
        PipRow::Left => 1,
        PipRow::Right => 1,
        PipRow::Center => 1,
        PipRow::Both => 2,
    }
}

/// A line of pips seen with the die turned half round: left and right swap.
pub open spec fn turned(r: PipRow) -> PipRow {
    match r {
        PipRow::Left => PipRow::Right,
        PipRow::Right => PipRow::Left,
        _ => r,
    }
}

/// The die drawn for hand entry `d` shows `d + 1` pips over its three lines,
/// looks the same turned half round, and has a middle pip exactly when its
/// number of pips is odd.
pub proof fn lemma_die_shows_its_face(d: int)
    requires
        0 <= d < 6,
    ensures
        pip_count(pip_pattern(d, 0)) + pip_count(pip_pattern(d, 1)) + pip_count(pip_pattern(d, 2)) == d + 1,
        turned(pip_pattern(d, 0)) == pip_pattern(d, 2),
        turned(pip_pattern(d, 1)) == pip_pattern(d, 1),
        (pip_pattern(d, 1) == PipRow::Center || pip_pattern(d, 0) == PipRow::Center || pip_pattern(d, 2)
            == PipRow::Center) <==> (d + 1) % 2 == 1,
{
}

/// A line of the picture of the pips has one cell per die in the hand.
proof fn lemma_pip_line_len(p: PlayerInfo, line: int, k: int)
    requires
        0 <= k <= 6,
    ensures
        pip_line_upto(p, line, k).len() == hand_cells(p, k),
    decreases k,
{
    if k > 0 {
        lemma_pip_line_len(p, line, k - 1);
    }
}

/// The dice counted in the first `k` hand entries.
pub open spec fn hand_cells(p: PlayerInfo, k: int) -> int
    decreases k,
{
    if k <= 0 {
        0
    } else {
        hand_cells(p, k - 1) + p.dies[k - 1].cnt
    }
}

/// The picture of a hand: its edges and blank lines have one cell per die the
/// player has, its pip lines one cell per die in the hand, and the cells of
/// the three pip lines of each die hold that die's pips.
pub proof fn lemma_picture_shape(p: PlayerInfo)
    ensures
        dice_picture(p).len() == 9,
        forall|r: int| #![trigger dice_picture(p)[r]]
            r == 0 || r == 1 || r == 3 || r == 5 || r == 7 || r == 8 ==> dice_picture(p)[r].len() == p.dies_left,
        forall|r: int| #![trigger dice_picture(p)[r]]
            r == 2 || r == 4 || r == 6 ==> dice_picture(p)[r].len() == hand_cells(p, 6),
        forall|c: int| 0 <= c < dice_picture(p)[0].len() ==> dice_picture(p)[0][c] == Cell::Top,
        forall|c: int| 0 <= c < dice_picture(p)[8].len() ==> dice_picture(p)[8][c] == Cell::Bottom,
{
    lemma_pip_line_len(p, 0, 6);
    lemma_pip_line_len(p, 1, 6);
    lemma_pip_line_len(p, 2, 6);
}

proof fn lemma_hand_cells_mono(p: PlayerInfo, j: int, k: int)
    requires
        0 <= j <= k,
    ensures
        0 <= hand_cells(p, j) <= hand_cells(p, k),
    decreases k,
{
    if k > 0 {
        if j < k {
            lemma_hand_cells_mono(p, j, k - 1);
        } else {
            lemma_hand_cells_mono(p, k - 1, k - 1);
        }
    }
}

proof fn lemma_pip_line_cell(p: PlayerInfo, line: int, k: int, c: int)
    requires
        0 <= k <= 6,
        0 <= c < hand_cells(p, k),
    ensures
        exists|d: int|
            0 <= d < k && hand_cells(p, d) <= c < hand_cells(p, d + 1) && #[trigger] pip_line_upto(p, line, k)[c]
                == Cell::Face(pip_pattern(d, line)),
    decreases k,
{
    lemma_pip_line_len(p, line, k - 1);
    lemma_hand_cells_mono(p, 0, k - 1);
    if c < hand_cells(p, k - 1) {
        lemma_pip_line_cell(p, line, k - 1, c);
        let d = choose|d: int|
            0 <= d < k - 1 && hand_cells(p, d) <= c < hand_cells(p, d + 1) && #[trigger] pip_line_upto(
                p,
                line,
                k - 1,
            )[c] == Cell::Face(pip_pattern(d, line));
        assert(pip_line_upto(p, line, k)[c] == pip_line_upto(p, line, k - 1)[c]);
    } else {
        assert(pip_line_upto(p, line, k)[c] == Cell::Face(pip_pattern(k - 1, line)));
    }
}

/// Each die of the picture is drawn with its own face: the cells of column
/// `c` on the three pip lines come from one hand entry `d`, the columns of
/// entry `d` are as many as the dice it counts, and together the three cells
/// of the column hold `d + 1` pips.
pub proof fn lemma_each_die_drawn_with_its_pips(p: PlayerInfo, c: int)
    requires
        0 <= c < hand_cells(p, 6),
    ensures
        exists|d: int|
            #![trigger hand_cells(p, d)]
            0 <= d < 6 && hand_cells(p, d) <= c < hand_cells(p, d + 1) && hand_cells(p, d + 1) - hand_cells(p, d)
                == p.dies[d].cnt && dice_picture(p)[2][c] == Cell::Face(pip_pattern(d, 0))
                && dice_picture(p)[4][c] == Cell::Face(pip_pattern(d, 1)) && dice_picture(p)[6][c] == Cell::Face(
                pip_pattern(d, 2),
            ) && pip_count(pip_pattern(d, 0)) + pip_count(pip_pattern(d, 1)) + pip_count(pip_pattern(d, 2)) == d
                + 1,
{
    lemma_pip_line_cell(p, 0, 6, c);
    let d = choose|d: int|
        0 <= d < 6 && hand_cells(p, d) <= c < hand_cells(p, d + 1) && #[trigger] pip_line_upto(p, 0, 6)[c]
            == Cell::Face(pip_pattern(d, 0));
    lemma_pip_line_cell(p, 1, 6, c);
    let d1 = choose|d: int|
        0 <= d < 6 && hand_cells(p, d) <= c < hand_cells(p, d + 1) && #[trigger] pip_line_upto(p, 1, 6)[c]
            == Cell::Face(pip_pattern(d, 1));
    lemma_pip_line_cell(p, 2, 6, c);
    let d2 = choose|d: int|
        0 <= d < 6 && hand_cells(p, d) <= c < hand_cells(p, d + 1) && #[trigger] pip_line_upto(p, 2, 6)[c]
            == Cell::Face(pip_pattern(d, 2));
    if d1 != d {
        if d1 < d {
            lemma_hand_cells_mono(p, d1 + 1, d);
        } else {
            lemma_hand_cells_mono(p, d + 1, d1);
        }
    }
    if d2 != d {
        if d2 < d {
            lemma_hand_cells_mono(p, d2 + 1, d);
        } else {
            lemma_hand_cells_mono(p, d + 1, d2);
        }
    }
    lemma_die_shows_its_face(d);
    assert(hand_cells(p, d + 1) - hand_cells(p, d) == p.dies[d].cnt);
}

fn repeat_cell(c: Cell, n: u8) -> (r: Vec<Cell>)
    ensures
        r@ == cells(c, n as nat),
{
    let mut r: Vec<Cell> = Vec::new();
    let mut i: u8 = 0;
    while i < n
        invariant
            i <= n,
            r@ == cells(c, i as nat),
        decreases n - i,
    {
        r.push(c);
        i += 1;
    }
    r
}

fn pips_of(player: &PlayerInfo, line: usize) -> (r: Vec<Cell>)
    requires
        line < 3,
    ensures
        r@ == pip_line(*player, line as int),
{
    let mut r: Vec<Cell> = Vec::new();
    let mut d: usize = 0;
    while d < 6
        invariant
            d <= 6,
            line < 3,
            r@ == pip_line_upto(*player, line as int, d as int),
        decreases 6 - d,
    {
        let cell = Cell::Face(pip_row(d, line));
        let ghost before = r@;
        let mut i: u8 = 0;
        while i < player.dies[d].cnt
            invariant
                d < 6,
                i <= player.dies[d as int].cnt,
                cell == Cell::Face(pip_pattern(d as int, line as int)),
                r@ == before + Seq::new(i as nat, |j: int| cell),
            decreases player.dies[d as int].cnt - i,
        {
            r.push(cell);
            i += 1;
        }
        proof {
            assert(Seq::new(player.dies[d as int].cnt as nat, |j: int| cell) =~= Seq::new(
                player.dies[d as int].cnt as nat,
                |j: int| Cell::Face(pip_pattern(d as int, line as int)),
            ));
        }
        d += 1;
    }
    r
}

/// Draws a player's dice as rows of cells, one row per line of the picture.
pub fn draw_dies(player: PlayerInfo) -> (rows: Vec<Vec<Cell>>)
    ensures
        rows@.len() == 9,
        forall|i: int| 0 <= i < 9 ==> #[trigger] rows@[i]@ == dice_picture(player)[i],
{
    let mut rows: Vec<Vec<Cell>> = Vec::new();
    rows.push(repeat_cell(Cell::Top, player.dies_left));
    rows.push(repeat_cell(Cell::Face(PipRow::Blank), player.dies_left));
    rows.push(pips_of(&player, 0));
    rows.push(repeat_cell(Cell::Face(PipRow::Blank), player.dies_left));
    rows.push(pips_of(&player, 1));
    rows.push(repeat_cell(Cell::Face(PipRow::Blank), player.dies_left));
    rows.push(pips_of(&player, 2));
    rows.push(repeat_cell(Cell::Face(PipRow::Blank), player.dies_left));
    rows.push(repeat_cell(Cell::Bottom, player.dies_left));
    rows
}

} // verus!
