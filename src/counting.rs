//! How many stones of each kind a placement leaves on the board.
use crate::board::{
    cell, delta, index_of, lemma_cell_of_index, lemma_index_of_cell, on_board, opponent, pos_at,
    tally, tally_upto, Board, Piece, Pos,
};
use crate::rays::{
    capture_count, cells_along, count_upto, dirs_upto, flipped, lemma_captures_sides,
    lemma_run_cells, legal, placed, ray_captures, ray_cells, run_len,
};
use vstd::prelude::*;

verus! {

/// Number of indices below `n` where `f` holds.
pub open spec fn count_where(f: spec_fn(int) -> bool, n: int) -> nat
    decreases n,
{
    if n <= 0 {
        0
    } else {
        count_where(f, n - 1) + if f(n - 1) {
            1nat
        } else {
            0nat
        }
    }
}

/// Number of cells below `n` that hold `p` in `b` and something else in `a`.
pub open spec fn gained(a: Seq<Piece>, b: Seq<Piece>, p: Piece, n: int) -> nat
    decreases n,
{
    if n <= 0 {
        0
    } else {
        gained(a, b, p, n - 1) + if a[n - 1] != p && b[n - 1] == p {
            1nat
        } else {
            0nat
        }
    }
}

pub proof fn lemma_gained_count(a: Seq<Piece>, b: Seq<Piece>, p: Piece, g: spec_fn(int) -> bool, n: int)
    requires
        forall|i: int| 0 <= i < n ==> #[trigger] g(i) == (a[i] != p && b[i] == p),
    ensures
        gained(a, b, p, n) == count_where(g, n),
    decreases n,
{
    if n > 0 {
        lemma_gained_count(a, b, p, g, n - 1);
    }
}

pub proof fn lemma_count_where_ext(f: spec_fn(int) -> bool, g: spec_fn(int) -> bool, n: int)
    requires
        forall|i: int| 0 <= i < n ==> #[trigger] f(i) == g(i),
    ensures
        count_where(f, n) == count_where(g, n),
    decreases n,
{
    if n > 0 {
        lemma_count_where_ext(f, g, n - 1);
    }
}

pub proof fn lemma_count_where_none(f: spec_fn(int) -> bool, n: int)
    requires
        forall|i: int| 0 <= i < n ==> !#[trigger] f(i),
    ensures
        count_where(f, n) == 0,
    decreases n,
{
    if n > 0 {
        lemma_count_where_none(f, n - 1);
    }
}

/// `g` holds where `f` holds and at `e` besides.
pub proof fn lemma_count_where_add(f: spec_fn(int) -> bool, g: spec_fn(int) -> bool, e: int, n: int)
    requires
        0 <= e < n,
        !f(e),
        forall|i: int| 0 <= i < n ==> #[trigger] g(i) == (f(i) || i == e),
    ensures
        count_where(g, n) == count_where(f, n) + 1,
    decreases n,
{
    if n - 1 == e {
        lemma_count_where_ext(f, g, n - 1);
    } else {
        lemma_count_where_add(f, g, e, n - 1);
    }
}

/// Cells that hold `p` after a change: those before, plus those gained,
/// minus those lost.
pub proof fn lemma_tally_change(a: Seq<Piece>, b: Seq<Piece>, p: Piece, n: int)
    requires
        0 <= n,
    ensures
        tally_upto(b, p, n) + gained(b, a, p, n) == tally_upto(a, p, n) + gained(a, b, p, n),
    decreases n,
{
    if n > 0 {
        lemma_tally_change(a, b, p, n - 1);
    }
}

/// A list of distinct board cells marks exactly as many indices as it is long.
pub proof fn lemma_count_listed(l: Seq<Pos>)
    requires
        l.no_duplicates(),
        forall|j: int| 0 <= j < l.len() ==> on_board(#[trigger] l[j].x as int, l[j].y as int),
    ensures
        count_where(|i: int| l.contains(pos_at(i)), 64) == l.len(),
    decreases l.len(),
{
    broadcast use vstd::seq_lib::group_seq_properties;

    if l.len() == 0 {
        lemma_count_where_none(|i: int| l.contains(pos_at(i)), 64);
    } else {
        let l0 = l.drop_last();
        let e = l.last();
        assert(l0.no_duplicates());
        assert forall|j: int| 0 <= j < l0.len() implies on_board(
            #[trigger] l0[j].x as int,
            l0[j].y as int,
        ) by {
            assert(l0[j] == l[j]);
        }
        lemma_count_listed(l0);
        assert(l =~= l0.push(e));
        let ei = index_of(e.x as int, e.y as int);
        lemma_index_of_cell(e.x as int, e.y as int);
        assert(!l0.contains(e));
        assert forall|i: int| 0 <= i < 64 implies l.contains(pos_at(i)) == (l0.contains(pos_at(i))
            || i == ei) by {
            lemma_cell_of_index(i);
        }
        lemma_count_where_add(
            |i: int| l0.contains(pos_at(i)),
            |i: int| l.contains(pos_at(i)),
            ei,
            64,
        );
    }
}

/// The direction in which `(px, py)` lies from `(x, y)`.
pub open spec fn direction_to(x: int, y: int, px: int, py: int) -> int {
    let sx = if px > x {
        1int
    } else if px < x {
        -1int
    } else {
        0int
    };
    let sy = if py > y {
        1int
    } else if py < y {
        -1int
    } else {
        0int
    };
    if (sx, sy) == delta(0) {
        0
    } else if (sx, sy) == delta(1) {
        1
    } else if (sx, sy) == delta(2) {
        2
    } else if (sx, sy) == delta(3) {
        3
    } else if (sx, sy) == delta(4) {
        4
    } else if (sx, sy) == delta(5) {
        5
    } else if (sx, sy) == delta(6) {
        6
    } else {
        7
    }
}

/// The cells turned along the directions below `n`: distinct, all holding
/// the opponent, all in directions below `n`, as many as captured.
pub proof fn lemma_cells_along_upto(s: Seq<Piece>, me: Piece, x: int, y: int, n: int)
    requires
        on_board(x, y),
        0 <= n <= 8,
    ensures
        ({
            let l = cells_along(s, me, x, y, dirs_upto(s, me, x, y, n));
            &&& l.no_duplicates()
            &&& l.len() == count_upto(s, me, x, y, n)
            &&& forall|j: int|
                0 <= j < l.len() ==> {
                    &&& cell(s, #[trigger] l[j].x as int, l[j].y as int) == Some(opponent(me))
                    &&& direction_to(x, y, l[j].x as int, l[j].y as int) < n
                }
        }),
    decreases n,
{
    broadcast use vstd::seq_lib::group_seq_properties;

    if n > 0 {
        lemma_cells_along_upto(s, me, x, y, n - 1);
        let prev = dirs_upto(s, me, x, y, n - 1);
        let a = cells_along(s, me, x, y, prev);
        if ray_captures(s, me, x, y, n - 1) {
            let d = n - 1;
            let ds = prev.push(d as i32);
            assert(ds.drop_last() =~= prev);
            let k = run_len(s, me, x, y, d) as int;
            let b = ray_cells(x, y, d, k);
            let l = cells_along(s, me, x, y, ds);
            assert(l == a + b);
            assert forall|j: int| 0 <= j < b.len() implies {
                &&& cell(s, #[trigger] b[j].x as int, b[j].y as int) == Some(opponent(me))
                &&& direction_to(x, y, b[j].x as int, b[j].y as int) == d
            } by {
                lemma_run_cells(s, opponent(me), x, y, d, 1, j + 1);
            }
            assert(b.no_duplicates());
            assert forall|i: int, j: int| 0 <= i < a.len() && 0 <= j < b.len() implies a[i]
                != b[j] by {
                assert(direction_to(x, y, a[i].x as int, a[i].y as int) < d);
                assert(direction_to(x, y, b[j].x as int, b[j].y as int) == d);
            }
            vstd::seq_lib::lemma_no_dup_in_concat(a, b);
            assert forall|j: int| 0 <= j < l.len() implies {
                &&& cell(s, #[trigger] l[j].x as int, l[j].y as int) == Some(opponent(me))
                &&& direction_to(x, y, l[j].x as int, l[j].y as int) < n
            } by {
                if j < a.len() {
                    assert(l[j] == a[j]);
                } else {
                    assert(l[j] == b[j - a.len()]);
                }
            }
        }
    }
}

/// The turned cells: distinct, on the board, holding the opponent, and as
/// many as the stones captured.
pub proof fn lemma_flipped(s: Seq<Piece>, me: Piece, x: int, y: int)
    requires
        on_board(x, y),
    ensures
        flipped(s, me, x, y).no_duplicates(),
        flipped(s, me, x, y).len() == capture_count(s, me, x, y),
        forall|j: int|
            0 <= j < flipped(s, me, x, y).len() ==> cell(
                s,
                #[trigger] flipped(s, me, x, y)[j].x as int,
                flipped(s, me, x, y)[j].y as int,
            ) == Some(opponent(me)),
{
    lemma_cells_along_upto(s, me, x, y, 8);
}

/// A placement adds one stone to the board: the mover gains the placed
/// stone and every captured one, the opponent loses exactly the captured
/// ones, and one empty cell fewer remains.
pub proof fn lemma_placed_tallies(b: Board, me: Piece, pos: Pos)
    requires
        b.wf(),
        legal(b@, me, pos.x as int, pos.y as int),
    ensures
        ({
            let s = b@;
            let x = pos.x as int;
            let y = pos.y as int;
            let t = placed(s, me, x, y);
            let n = capture_count(s, me, x, y);
            &&& tally(t, me) == tally(s, me) + 1 + n
            &&& tally(t, opponent(me)) + n == tally(s, opponent(me))
            &&& tally(t, Piece::Space) + 1 == tally(s, Piece::Space)
            &&& tally(t, Piece::White) + tally(t, Piece::Black) == tally(s, Piece::White) + tally(
                s,
                Piece::Black,
            ) + 1
        }),
{
    let s = b@;
    let x = pos.x as int;
    let y = pos.y as int;
    let t = placed(s, me, x, y);
    let fl = flipped(s, me, x, y);
    let opp = opponent(me);
    let e = index_of(x, y);
    b.lemma_len();
    lemma_index_of_cell(x, y);
    crate::rays::lemma_count_upto_positive(s, me, x, y, 8);
    let d = choose|d: int| 0 <= d < 8 && #[trigger] ray_captures(s, me, x, y, d);
    lemma_captures_sides(s, me, x, y, d);
    lemma_flipped(s, me, x, y);
    assert forall|i: int| 0 <= i < 64 && #[trigger] fl.contains(pos_at(i)) implies s[i] == opp
        && i != e by {
        lemma_cell_of_index(i);
        let j = choose|j: int| 0 <= j < fl.len() && fl[j] == pos_at(i);
        assert(cell(s, fl[j].x as int, fl[j].y as int) == Some(opp));
    }
    assert forall|j: int| 0 <= j < fl.len() implies on_board(
        #[trigger] fl[j].x as int,
        fl[j].y as int,
    ) by {
        assert(cell(s, fl[j].x as int, fl[j].y as int) == Some(opp));
    }
    lemma_count_listed(fl);
    let listed = |i: int| fl.contains(pos_at(i));
    let marked = |i: int| i == e || fl.contains(pos_at(i));
    lemma_count_where_add(listed, marked, e, 64);
    // the mover
    lemma_gained_count(s, t, me, marked, 64);
    lemma_count_where_none(|i: int| false, 64);
    lemma_gained_count(t, s, me, |i: int| false, 64);
    lemma_tally_change(s, t, me, 64);
    // the opponent
    lemma_gained_count(s, t, opp, |i: int| false, 64);
    lemma_gained_count(t, s, opp, listed, 64);
    lemma_tally_change(s, t, opp, 64);
    // the empty cells
    lemma_gained_count(s, t, Piece::Space, |i: int| false, 64);
    lemma_count_where_add(|i: int| false, |i: int| i == e, e, 64);
    lemma_gained_count(t, s, Piece::Space, |i: int| i == e, 64);
    lemma_tally_change(s, t, Piece::Space, 64);
    assert(t.len() == 64);
    assert(tally(t, me) == tally(s, me) + 1 + fl.len());
    assert(tally(t, opp) + fl.len() == tally(s, opp));
    assert(tally(t, Piece::Space) + 1 == tally(s, Piece::Space));
}

} // verus!
