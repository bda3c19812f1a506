//! What a placement captures, stated over the cells of a board.
use crate::board::{cell, delta, index_of, on_board, opponent, pos_at, weight, Piece, Pos};
use vstd::prelude::*;

verus! {

/// `v` moved `k` steps along the unit component `dv`.
pub open spec fn step(v: int, dv: int, k: int) -> int {
    if dv > 0 {
        v + k
    } else if dv < 0 {
        v - k
    } else {
        v
    }
}

/// Column of the `k`-th cell from `x` in direction `d`.
pub open spec fn ray_x(x: int, d: int, k: int) -> int {
    step(x, delta(d).0, k)
}

/// Row of the `k`-th cell from `y` in direction `d`.
pub open spec fn ray_y(y: int, d: int, k: int) -> int {
    step(y, delta(d).1, k)
}

/// Length of the unbroken line of `opp` stones that starts at the `k`-th
/// cell from `(x, y)` in direction `d`.
pub open spec fn run_from(s: Seq<Piece>, opp: Piece, x: int, y: int, d: int, k: int) -> nat
    decreases 8 - k,
{
    if 1 <= k < 8 && cell(s, ray_x(x, d, k), ray_y(y, d, k)) == Some(opp) {
        1 + run_from(s, opp, x, y, d, k + 1)
    } else {
        0
    }
}

/// Sum of the weights of the cells counted by `run_from`.
pub open spec fn run_weight_from(
    s: Seq<Piece>,
    opp: Piece,
    x: int,
    y: int,
    d: int,
    k: int,
) -> int
    decreases 8 - k,
{
    if 1 <= k < 8 && cell(s, ray_x(x, d, k), ray_y(y, d, k)) == Some(opp) {
        weight(ray_x(x, d, k), ray_y(y, d, k)) + run_weight_from(s, opp, x, y, d, k + 1)
    } else {
        0
    }
}

/// Opponent stones next to `(x, y)` in direction `d`, in one unbroken line.
pub open spec fn run_len(s: Seq<Piece>, me: Piece, x: int, y: int, d: int) -> nat {
    run_from(s, opponent(me), x, y, d, 1)
}

/// The line of opponent stones in direction `d` is not empty and ends on a
/// stone of `me`: a stone of `me` at `(x, y)` captures it.
pub open spec fn ray_captures(s: Seq<Piece>, me: Piece, x: int, y: int, d: int) -> bool {
    let n = run_len(s, me, x, y, d) as int;
    n > 0 && cell(s, ray_x(x, d, n + 1), ray_y(y, d, n + 1)) == Some(me)
}

/// Stones captured in direction `d`.
pub open spec fn ray_count(s: Seq<Piece>, me: Piece, x: int, y: int, d: int) -> nat {
    if ray_captures(s, me, x, y, d) {
        run_len(s, me, x, y, d)
    } else {
        0
    }
}

/// Weight of the stones captured in direction `d`.
pub open spec fn ray_score(s: Seq<Piece>, me: Piece, x: int, y: int, d: int) -> int {
    if ray_captures(s, me, x, y, d) {
        run_weight_from(s, opponent(me), x, y, d, 1)
    } else {
        0
    }
}

/// Stones captured in the directions below `n`.
pub open spec fn count_upto(s: Seq<Piece>, me: Piece, x: int, y: int, n: int) -> nat
    decreases n,
{
    if n <= 0 {
        0
    } else {
        count_upto(s, me, x, y, n - 1) + ray_count(s, me, x, y, n - 1)
    }
}

/// Weight of the stones captured in the directions below `n`.
pub open spec fn score_upto(s: Seq<Piece>, me: Piece, x: int, y: int, n: int) -> int
    decreases n,
{
    if n <= 0 {
        0
    } else {
        score_upto(s, me, x, y, n - 1) + ray_score(s, me, x, y, n - 1)
    }
}

/// The capturing directions below `n`, in increasing order.
pub open spec fn dirs_upto(s: Seq<Piece>, me: Piece, x: int, y: int, n: int) -> Seq<i32>
    decreases n,
{
    if n <= 0 {
        seq![]
    } else if ray_captures(s, me, x, y, n - 1) {
        dirs_upto(s, me, x, y, n - 1).push((n - 1) as i32)
    } else {
        dirs_upto(s, me, x, y, n - 1)
    }
}

/// Stones captured by a stone of `me` at `(x, y)`: the sum of the line
/// lengths over all capturing directions.
pub open spec fn capture_count(s: Seq<Piece>, me: Piece, x: int, y: int) -> nat {
    count_upto(s, me, x, y, 8)
}

/// Weight of the captured stones plus the weight of the placement cell.
pub open spec fn move_score(s: Seq<Piece>, me: Piece, x: int, y: int) -> int {
    score_upto(s, me, x, y, 8) + weight(x, y)
}

/// The capturing directions, in increasing order.
pub open spec fn capture_dirs(s: Seq<Piece>, me: Piece, x: int, y: int) -> Seq<i32> {
    dirs_upto(s, me, x, y, 8)
}

/// `me` may place a stone at `(x, y)`: the cell is on the board, empty,
/// and the stone captures at least one opponent stone.
pub open spec fn legal(s: Seq<Piece>, me: Piece, x: int, y: int) -> bool {
    &&& on_board(x, y)
    &&& s[index_of(x, y)] == Piece::Space
    &&& capture_count(s, me, x, y) > 0
}

/// The first `n` cells from `(x, y)` in direction `d`, nearest first.
pub open spec fn ray_cells(x: int, y: int, d: int, n: int) -> Seq<Pos> {
    Seq::new(n as nat, |i: int| Pos { x: ray_x(x, d, i + 1) as i32, y: ray_y(y, d, i + 1) as i32 })
}

/// The cells captured along each direction of `ds` in turn, nearest first.
pub open spec fn cells_along(s: Seq<Piece>, me: Piece, x: int, y: int, ds: Seq<i32>) -> Seq<Pos>
    decreases ds.len(),
{
    if ds.len() == 0 {
        seq![]
    } else {
        cells_along(s, me, x, y, ds.drop_last()) + ray_cells(
            x,
            y,
            ds.last() as int,
            run_len(s, me, x, y, ds.last() as int) as int,
        )
    }
}

/// The cells a stone of `me` at `(x, y)` turns over, in the order of the
/// capturing directions and, within one direction, nearest first.
pub open spec fn flipped(s: Seq<Piece>, me: Piece, x: int, y: int) -> Seq<Pos> {
    cells_along(s, me, x, y, capture_dirs(s, me, x, y))
}

/// The cells after `me` places at `(x, y)`: the placement cell and the
/// captured cells hold `me`, every other cell is as before.
pub open spec fn placed(s: Seq<Piece>, me: Piece, x: int, y: int) -> Seq<Piece> {
    Seq::new(
        64,
        |i: int|
            if i == index_of(x, y) || flipped(s, me, x, y).contains(pos_at(i)) {
                me
            } else {
                s[i]
            },
    )
}

pub proof fn lemma_ray_leaves_board(x: int, y: int, d: int, k: int)
    requires
        on_board(x, y),
        0 <= d < 8,
        k >= 8,
    ensures
        !on_board(ray_x(x, d, k), ray_y(y, d, k)),
{
}

pub proof fn lemma_run_bounds(s: Seq<Piece>, opp: Piece, x: int, y: int, d: int, k: int)
    requires
        1 <= k,
    ensures
        run_from(s, opp, x, y, d, k) <= if k < 8 {
            8 - k
        } else {
            0
        },
        -4 * run_from(s, opp, x, y, d, k) <= run_weight_from(s, opp, x, y, d, k) <= 12
            * run_from(s, opp, x, y, d, k),
    decreases 8 - k,
{
    if 1 <= k < 8 {
        lemma_run_bounds(s, opp, x, y, d, k + 1);
    }
}

pub proof fn lemma_upto_bounds(s: Seq<Piece>, me: Piece, x: int, y: int, n: int)
    requires
        0 <= n <= 8,
    ensures
        count_upto(s, me, x, y, n) <= 7 * n,
        -28 * n <= score_upto(s, me, x, y, n) <= 84 * n,
    decreases n,
{
    if n > 0 {
        lemma_upto_bounds(s, me, x, y, n - 1);
        lemma_run_bounds(s, opponent(me), x, y, n - 1, 1);
    }
}

/// Every cell counted by `run_from` holds `opp`.
pub proof fn lemma_run_cells(s: Seq<Piece>, opp: Piece, x: int, y: int, d: int, k: int, j: int)
    requires
        1 <= k <= j < k + run_from(s, opp, x, y, d, k),
    ensures
        cell(s, ray_x(x, d, j), ray_y(y, d, j)) == Some(opp),
    decreases 8 - k,
{
    if j > k {
        lemma_run_cells(s, opp, x, y, d, k + 1, j);
    }
}

/// The run in direction `d` ends on a cell that does not hold `opp`.
pub proof fn lemma_run_end(s: Seq<Piece>, opp: Piece, x: int, y: int, d: int, k: int)
    requires
        on_board(x, y),
        0 <= d < 8,
        1 <= k,
    ensures
        cell(
            s,
            ray_x(x, d, k + run_from(s, opp, x, y, d, k)),
            ray_y(y, d, k + run_from(s, opp, x, y, d, k)),
        ) != Some(opp),
    decreases 8 - k,
{
    if 1 <= k < 8 && cell(s, ray_x(x, d, k), ray_y(y, d, k)) == Some(opp) {
        lemma_run_end(s, opp, x, y, d, k + 1);
    } else if k >= 8 {
        lemma_ray_leaves_board(x, y, d, k);
    }
}

/// A capturing line ends on a stone of `me`, which is not the opponent.
pub proof fn lemma_captures_sides(s: Seq<Piece>, me: Piece, x: int, y: int, d: int)
    requires
        on_board(x, y),
        0 <= d < 8,
        ray_captures(s, me, x, y, d),
    ensures
        me != opponent(me),
        me != Piece::Space,
{
    lemma_run_end(s, opponent(me), x, y, d, 1);
}

/// Every listed direction is below `n` and captures; the list is increasing.
pub proof fn lemma_dirs_upto(s: Seq<Piece>, me: Piece, x: int, y: int, n: int)
    requires
        0 <= n <= 8,
    ensures
        dirs_upto(s, me, x, y, n).len() <= n,
        forall|i: int|
            0 <= i < dirs_upto(s, me, x, y, n).len() ==> {
                let d = #[trigger] dirs_upto(s, me, x, y, n)[i];
                0 <= d < n && ray_captures(s, me, x, y, d as int)
            },
        forall|i: int, j: int|
            0 <= i < j < dirs_upto(s, me, x, y, n).len() ==> dirs_upto(s, me, x, y, n)[i]
                < dirs_upto(s, me, x, y, n)[j],
    decreases n,
{
    if n > 0 {
        lemma_dirs_upto(s, me, x, y, n - 1);
    }
}

/// Some direction below `n` captures exactly when stones are captured in
/// the directions below `n`.
pub proof fn lemma_count_upto_positive(s: Seq<Piece>, me: Piece, x: int, y: int, n: int)
    requires
        0 <= n <= 8,
    ensures
        count_upto(s, me, x, y, n) > 0 <==> exists|d: int|
            0 <= d < n && #[trigger] ray_captures(s, me, x, y, d),
    decreases n,
{
    if n > 0 {
        lemma_count_upto_positive(s, me, x, y, n - 1);
        if ray_captures(s, me, x, y, n - 1) {
            assert(run_len(s, me, x, y, n - 1) > 0);
        }
        if count_upto(s, me, x, y, n) == 0 {
            assert forall|d: int| 0 <= d < n implies !#[trigger] ray_captures(s, me, x, y, d) by {
                if d < n - 1 {
                } else {
                }
            }
        }
    }
}

} // verus!
