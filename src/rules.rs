//! Legal placements, captures, and the boards that placements lead to.
use crate::board::{
    cell, col_of, index_of, lemma_cell_of_index, lemma_index_of_cell, on_board, opponent, pos_at, row_of,
    Board, Piece, Pos,
};
use crate::rays::{
    capture_count, capture_dirs, cells_along, count_upto, dirs_upto, flipped, lemma_captures_sides,
    lemma_dirs_upto, lemma_ray_leaves_board, lemma_run_bounds, lemma_run_cells, lemma_upto_bounds,
    legal, move_score, placed, ray_captures, ray_cells, ray_x, ray_y, run_from, run_len,
    run_weight_from, score_upto,
};
use vstd::prelude::*;

verus! {

/// What a stone at `pos` would capture.
#[derive(Clone, Debug, PartialEq)]
pub struct SearchResult1 {
    pub pos: Pos,
    /// Number of stones captured.
    pub ntake: i32,
    /// Weight of the captured stones plus that of `pos`.
    pub score: i32,
    /// The capturing directions, in increasing order.
    pub dirs: Vec<i32>,
}

/// `r` is what the resolver owes for `me` at `pos` on the cells `s`.
pub open spec fn resolves_to(s: Seq<Piece>, me: Piece, pos: Pos, r: Option<SearchResult1>) -> bool {
    match r {
        None => !legal(s, me, pos.x as int, pos.y as int),
        Some(res) => {
            &&& legal(s, me, pos.x as int, pos.y as int)
            &&& res.pos == pos
            &&& res.ntake == capture_count(s, me, pos.x as int, pos.y as int)
            &&& res.score == move_score(s, me, pos.x as int, pos.y as int)
            &&& res.dirs@ == capture_dirs(s, me, pos.x as int, pos.y as int)
        },
    }
}

/// A placement and the board it leads to.
#[derive(Clone, Debug, PartialEq)]
pub struct SearchResult2 {
    pub pos: Pos,
    pub piece: Piece,
    /// The board after the placement.
    pub board: Board,
    /// Number of stones captured.
    pub ntake: i32,
    /// Score of the placement (see `outcome_of`).
    pub score: i32,
    /// The captured cells, direction by direction, nearest first.
    pub capturedPieceLocs: Vec<Pos>,
}

/// `o` is the placement of `me` at `pos` on the cells `s`, its score being
/// the move score times `factor`.
pub open spec fn outcome_of(s: Seq<Piece>, me: Piece, pos: Pos, factor: int, o: SearchResult2) -> bool {
    let x = pos.x as int;
    let y = pos.y as int;
    &&& o.pos == pos
    &&& o.piece == me
    &&& o.board.wf()
    &&& o.board@ == placed(s, me, x, y)
    &&& o.ntake == capture_count(s, me, x, y)
    &&& o.score == move_score(s, me, x, y) * factor
    &&& o.capturedPieceLocs@ == flipped(s, me, x, y)
}

/// `r` is what placing `me` at `pos` on the cells `s` owes.
pub open spec fn places_to(s: Seq<Piece>, me: Piece, pos: Pos, r: Option<SearchResult2>) -> bool {
    match r {
        None => !legal(s, me, pos.x as int, pos.y as int),
        Some(o) => legal(s, me, pos.x as int, pos.y as int) && outcome_of(s, me, pos, 1, o),
    }
}

/// The cells where `me` may place among the first `n` in row-major order.
pub open spec fn legal_upto(s: Seq<Piece>, me: Piece, n: int) -> Seq<Pos>
    decreases n,
{
    if n <= 0 {
        seq![]
    } else if legal(s, me, col_of(n - 1), row_of(n - 1)) {
        legal_upto(s, me, n - 1).push(pos_at(n - 1))
    } else {
        legal_upto(s, me, n - 1)
    }
}

/// The cells where `me` may place, in row-major order.
pub open spec fn legal_cells(s: Seq<Piece>, me: Piece) -> Seq<Pos> {
    legal_upto(s, me, 64)
}

pub proof fn lemma_legal_upto(s: Seq<Piece>, me: Piece, n: int)
    requires
        0 <= n <= 64,
    ensures
        legal_upto(s, me, n).len() <= n,
        forall|i: int|
            0 <= i < legal_upto(s, me, n).len() ==> {
                let p = #[trigger] legal_upto(s, me, n)[i];
                legal(s, me, p.x as int, p.y as int)
            },
    decreases n,
{
    if n > 0 {
        lemma_legal_upto(s, me, n - 1);
        lemma_cell_of_index(n - 1);
    }
}

/// Sum of the line lengths over the directions `ds`.
pub open spec fn runs_along(s: Seq<Piece>, me: Piece, x: int, y: int, ds: Seq<i32>) -> nat
    decreases ds.len(),
{
    if ds.len() == 0 {
        0
    } else {
        runs_along(s, me, x, y, ds.drop_last()) + run_len(s, me, x, y, ds.last() as int)
    }
}

/// On an empty cell of the board, a stone of `me` may not be placed exactly
/// when no direction has a line of opponent stones, starting next to the
/// cell, that ends on a stone of `me` before the edge or an empty cell.
pub proof fn lemma_illegal_iff_no_capturing_ray(b: Board, me: Piece, pos: Pos)
    requires
        b.wf(),
        on_board(pos.x as int, pos.y as int),
        b@[index_of(pos.x as int, pos.y as int)] == Piece::Space,
    ensures
        !legal(b@, me, pos.x as int, pos.y as int) <==> forall|d: int|
            0 <= d < 8 ==> !#[trigger] ray_captures(b@, me, pos.x as int, pos.y as int, d),
{
    crate::rays::lemma_count_upto_positive(b@, me, pos.x as int, pos.y as int, 8);
}

/// Two answers of the resolver to the same question are the same answer.
pub proof fn lemma_resolve_deterministic(
    s: Seq<Piece>,
    me: Piece,
    pos: Pos,
    r1: Option<SearchResult1>,
    r2: Option<SearchResult1>,
)
    requires
        resolves_to(s, me, pos, r1),
        resolves_to(s, me, pos, r2),
    ensures
        r1.is_some() == r2.is_some(),
        r1 matches Some(a) ==> {
            let b = r2.unwrap();
            &&& a.pos == b.pos
            &&& a.ntake == b.ntake
            &&& a.score == b.score
            &&& a.dirs@ == b.dirs@
        },
{
}

/// The stones a placement captures are the sum of the line lengths over
/// the capturing directions, and as many as the cells it turns.
pub proof fn lemma_capture_count_is_sum_of_runs(s: Seq<Piece>, me: Piece, pos: Pos)
    requires
        on_board(pos.x as int, pos.y as int),
    ensures
        capture_count(s, me, pos.x as int, pos.y as int) == runs_along(
            s,
            me,
            pos.x as int,
            pos.y as int,
            capture_dirs(s, me, pos.x as int, pos.y as int),
        ),
        flipped(s, me, pos.x as int, pos.y as int).len() == capture_count(
            s,
            me,
            pos.x as int,
            pos.y as int,
        ),
{
    lemma_runs_upto(s, me, pos.x as int, pos.y as int, 8);
    crate::counting::lemma_flipped(s, me, pos.x as int, pos.y as int);
}

proof fn lemma_runs_upto(s: Seq<Piece>, me: Piece, x: int, y: int, n: int)
    requires
        0 <= n <= 8,
    ensures
        count_upto(s, me, x, y, n) == runs_along(s, me, x, y, dirs_upto(s, me, x, y, n)),
    decreases n,
{
    if n > 0 {
        lemma_runs_upto(s, me, x, y, n - 1);
        let prev = dirs_upto(s, me, x, y, n - 1);
        if ray_captures(s, me, x, y, n - 1) {
            assert(prev.push((n - 1) as i32).drop_last() =~= prev);
        }
    }
}

/// A placement turns only opponent stones, each into a stone of the mover;
/// it puts a stone of the mover on the placement cell and leaves every other
/// cell as it was.
pub proof fn lemma_placed_capture_consistent(b: Board, me: Piece, pos: Pos)
    requires
        b.wf(),
        legal(b@, me, pos.x as int, pos.y as int),
    ensures
        ({
            let s = b@;
            let x = pos.x as int;
            let y = pos.y as int;
            let t = placed(s, me, x, y);
            let fl = flipped(s, me, x, y);
            &&& forall|j: int|
                0 <= j < fl.len() ==> {
                    &&& cell(s, #[trigger] fl[j].x as int, fl[j].y as int) == Some(opponent(me))
                    &&& cell(t, fl[j].x as int, fl[j].y as int) == Some(me)
                }
            &&& t[index_of(x, y)] == me
            &&& forall|i: int|
                0 <= i < 64 && i != index_of(x, y) && !fl.contains(#[trigger] pos_at(i)) ==> t[i]
                    == s[i]
        }),
{
    let s = b@;
    let x = pos.x as int;
    let y = pos.y as int;
    let fl = flipped(s, me, x, y);
    crate::counting::lemma_flipped(s, me, x, y);
    lemma_index_of_cell(x, y);
    assert forall|j: int| 0 <= j < fl.len() implies cell(
        placed(s, me, x, y),
        #[trigger] fl[j].x as int,
        fl[j].y as int,
    ) == Some(me) by {
        let p = fl[j];
        assert(on_board(p.x as int, p.y as int));
        lemma_index_of_cell(p.x as int, p.y as int);
        assert(fl.contains(pos_at(index_of(p.x as int, p.y as int))));
    }
}

impl Board {
    /// Walks from `pos` in direction `dir` over the stones of `opp`; returns
    /// how many there are, their total weight, and whether a stone of
    /// `piece` closes the line.
    fn scanRay(&self, piece: &Piece, opp: &Piece, pos: &Pos, dir: i32) -> (r: (i32, i32, bool))
        requires
            self.wf(),
            on_board(pos.x as int, pos.y as int),
            0 <= dir < 8,
            *opp == opponent(*piece),
        ensures
            r.0 == run_len(self@, *piece, pos.x as int, pos.y as int, dir as int),
            r.1 == run_weight_from(self@, *opp, pos.x as int, pos.y as int, dir as int, 1),
            r.2 == ray_captures(self@, *piece, pos.x as int, pos.y as int, dir as int),
    {
        let ghost s = self@;
        let ghost x = pos.x as int;
        let ghost y = pos.y as int;
        let ghost d = dir as int;
        let (dx, dy) = Pos::getDxDy(dir);
        let mut n: i32 = 0;
        let mut c: i32 = 0;
        let mut x1: i32 = pos.x + dx;
        let mut y1: i32 = pos.y + dy;
        loop
            invariant
                self.wf(),
                s == self@,
                on_board(x, y),
                0 <= d < 8,
                dx == crate::board::delta(d).0,
                dy == crate::board::delta(d).1,
                0 <= n <= 7,
                x1 == ray_x(x, d, n + 1),
                y1 == ray_y(y, d, n + 1),
                run_from(s, *opp, x, y, d, 1) == n + run_from(s, *opp, x, y, d, n + 1),
                run_weight_from(s, *opp, x, y, d, 1) == c + run_weight_from(
                    s,
                    *opp,
                    x,
                    y,
                    d,
                    n + 1,
                ),
                -4 * n <= c <= 12 * n,
            ensures
                run_from(s, *opp, x, y, d, n + 1) == 0,
                run_weight_from(s, *opp, x, y, d, n + 1) == 0,
            decreases 8 - n,
        {
            let is_opp = match self.getPiece(x1, y1) {
                Some(q) => *q == *opp,
                None => false,
            };
            if !is_opp {
                break ;
            }
            if n + 1 >= 8 {
                proof {
                    lemma_ray_leaves_board(x, y, d, n + 1);
                }
            }
            c = c + self.getCoef(x1, y1);
            n = n + 1;
            x1 = x1 + dx;
            y1 = y1 + dy;
        }
        let got = n > 0 && match self.getPiece(x1, y1) {
            Some(q) => *q == *piece,
            None => false,
        };
        (n, c, got)
    }

    /// What a stone of `piece` at `pos` captures, or `None` when it may not
    /// be placed there: the cell is off the board or taken, or no direction
    /// has a line of opponent stones closed by a stone of `piece`.
    pub fn searchPosSub(&self, piece: &Piece, pos: &Pos) -> (r: Option<SearchResult1>)
        requires
            self.wf(),
        ensures
            resolves_to(self@, *piece, *pos, r),
    {
        let ghost s = self@;
        let ghost x = pos.x as int;
        let ghost y = pos.y as int;
        let opp = Piece::getOpponent(piece);
        let mut ntake: i32 = 0;
        let mut score: i32 = 0;
        let mut dirs: Vec<i32> = Vec::new();
        let empty = match self.getPiece(pos.x, pos.y) {
            Some(p) => *p == Piece::Space,
            None => false,
        };
        if empty {
            let mut dir: i32 = 0;
            while dir < 8
                invariant
                    self.wf(),
                    s == self@,
                    x == pos.x,
                    y == pos.y,
                    on_board(x, y),
                    opp == opponent(*piece),
                    0 <= dir <= 8,
                    ntake == count_upto(s, *piece, x, y, dir as int),
                    score == score_upto(s, *piece, x, y, dir as int),
                    dirs@ == dirs_upto(s, *piece, x, y, dir as int),
                decreases 8 - dir,
            {
                proof {
                    lemma_upto_bounds(s, *piece, x, y, dir as int);
                    lemma_run_bounds(s, opp, x, y, dir as int, 1);
                }
                let (n, c, got) = self.scanRay(piece, &opp, pos, dir);
                if got {
                    ntake = ntake + n;
                    score = score + c;
                    dirs.push(dir);
                }
                dir = dir + 1;
            }
            proof {
                lemma_upto_bounds(s, *piece, x, y, 8);
            }
        }
        if ntake > 0 {
            score = score + self.getCoef(pos.x, pos.y);
            Some(SearchResult1 { pos: *pos, ntake, score, dirs })
        } else {
            None
        }
    }

    /// Every placement open to `piece`, in row-major order.
    pub fn searchPos(&self, piece: &Piece) -> (r: Vec<SearchResult1>)
        requires
            self.wf(),
        ensures
            r@.len() == legal_cells(self@, *piece).len(),
            forall|i: int|
                0 <= i < r@.len() ==> resolves_to(
                    self@,
                    *piece,
                    legal_cells(self@, *piece)[i],
                    Some(#[trigger] r@[i]),
                ),
    {
        let ghost s = self@;
        let mut result: Vec<SearchResult1> = Vec::new();
        let mut i: usize = 0;
        while i < 64
            invariant
                self.wf(),
                s == self@,
                0 <= i <= 64,
                result@.len() == legal_upto(s, *piece, i as int).len(),
                forall|j: int|
                    0 <= j < result@.len() ==> resolves_to(
                        s,
                        *piece,
                        legal_upto(s, *piece, i as int)[j],
                        Some(#[trigger] result@[j]),
                    ),
            decreases 64 - i,
        {
            let x: i32 = (i % 8) as i32 + 1;
            let y: i32 = (i / 8) as i32 + 1;
            if let Some(res) = self.searchPosSub(piece, &Pos { x, y }) {
                result.push(res);
            }
            i = i + 1;
        }
        result
    }

    /// Places `piece` at `pos` on a copy of the board and turns the captured
    /// stones; `None` when the placement is not legal. The board itself is
    /// left as it is.
    pub fn put(&self, piece: &Piece, pos: &Pos) -> (r: Option<SearchResult2>)
        requires
            self.wf(),
        ensures
            places_to(self@, *piece, *pos, r),
    {
        let ghost s = self@;
        let ghost x = pos.x as int;
        let ghost y = pos.y as int;
        let opp = Piece::getOpponent(piece);
        let res = match self.searchPosSub(piece, pos) {
            None => {
                return None;
            },
            Some(res) => res,
        };
        proof {
            lemma_index_of_cell(x, y);
            lemma_dirs_upto(s, *piece, x, y, 8);
        }
        let mut newBoard = *self;
        newBoard.setPiece(pos.x, pos.y, *piece);
        let mut captured: Vec<Pos> = Vec::new();
        proof {
            self.lemma_len();
            assert forall|i: int| 0 <= i < 64 implies !captured@.contains(pos_at(i)) by {}
            assert(newBoard@ =~= Seq::new(
                64,
                |i: int|
                    if i == index_of(x, y) || captured@.contains(pos_at(i)) {
                        *piece
                    } else {
                        s[i]
                    },
            ));
        }
        let mut t: usize = 0;
        while t < res.dirs.len()
            invariant
                self.wf(),
                s == self@,
                x == pos.x,
                y == pos.y,
                on_board(x, y),
                opp == opponent(*piece),
                res.dirs@ == capture_dirs(s, *piece, x, y),
                forall|i: int|
                    0 <= i < res.dirs@.len() ==> {
                        let d = #[trigger] res.dirs@[i];
                        0 <= d < 8 && ray_captures(s, *piece, x, y, d as int)
                    },
                0 <= t <= res.dirs@.len(),
                newBoard.wf(),
                newBoard@ == Seq::new(
                    64,
                    |i: int|
                        if i == index_of(x, y) || captured@.contains(pos_at(i)) {
                            *piece
                        } else {
                            s[i]
                        },
                ),
                captured@ == cells_along(s, *piece, x, y, res.dirs@.take(t as int)),
            decreases res.dirs@.len() - t,
        {
            let dir = res.dirs[t];
            let ghost d = dir as int;
            let ghost n = run_len(s, *piece, x, y, d) as int;
            let ghost base = captured@;
            proof {
                lemma_captures_sides(s, *piece, x, y, d);
            }
            let (dx, dy) = Pos::getDxDy(dir);
            let mut x1: i32 = pos.x + dx;
            let mut y1: i32 = pos.y + dy;
            let mut k: i32 = 0;
            loop
                invariant
                    self.wf(),
                    s == self@,
                    x == pos.x,
                    y == pos.y,
                    on_board(x, y),
                    opp == opponent(*piece),
                    *piece != opp,
                    0 <= d < 8,
                    ray_captures(s, *piece, x, y, d),
                    n == run_len(s, *piece, x, y, d),
                    dx == crate::board::delta(d).0,
                    dy == crate::board::delta(d).1,
                    0 <= k <= n,
                    x1 == ray_x(x, d, k + 1),
                    y1 == ray_y(y, d, k + 1),
                    newBoard.wf(),
                    newBoard@ == Seq::new(
                        64,
                        |i: int|
                            if i == index_of(x, y) || captured@.contains(pos_at(i)) {
                                *piece
                            } else {
                                s[i]
                            },
                    ),
                    captured@ == base + ray_cells(x, y, d, k as int),
                ensures
                    k == n,
                    newBoard.wf(),
                    newBoard@ == Seq::new(
                        64,
                        |i: int|
                            if i == index_of(x, y) || captured@.contains(pos_at(i)) {
                                *piece
                            } else {
                                s[i]
                            },
                    ),
                    captured@ == base + ray_cells(x, y, d, k as int),
                decreases n - k,
            {
                let is_opp = match self.getPiece(x1, y1) {
                    Some(q) => *q == opp,
                    None => false,
                };
                if !is_opp {
                    proof {
                        if k < n {
                            lemma_run_cells(s, opp, x, y, d, 1, k + 1);
                        }
                    }
                    break ;
                }
                proof {
                    lemma_index_of_cell(x1 as int, y1 as int);
                }
                let ghost before = captured@;
                let ghost p = Pos { x: x1, y: y1 };
                newBoard.setPiece(x1, y1, *piece);
                captured.push(Pos { x: x1, y: y1 });
                proof {
                    broadcast use vstd::seq_lib::group_seq_properties;

                    assert(ray_cells(x, y, d, k + 1) =~= ray_cells(x, y, d, k as int).push(p));
                    assert(captured@ =~= base + ray_cells(x, y, d, k + 1));
                    assert forall|i: int| 0 <= i < 64 implies (pos_at(i) == p) == (i == index_of(
                        x1 as int,
                        y1 as int,
                    )) by {
                        lemma_cell_of_index(i);
                    }
                    assert(newBoard@ =~= Seq::new(
                        64,
                        |i: int|
                            if i == index_of(x, y) || captured@.contains(pos_at(i)) {
                                *piece
                            } else {
                                s[i]
                            },
                    ));
                }
                k = k + 1;
                x1 = x1 + dx;
                y1 = y1 + dy;
            }
            proof {
                assert(res.dirs@.take(t + 1).drop_last() =~= res.dirs@.take(t as int));
            }
            t = t + 1;
        }
        proof {
            assert(res.dirs@.take(t as int) =~= res.dirs@);
            assert(newBoard@ =~= placed(s, *piece, x, y));
        }
        Some(
            SearchResult2 {
                pos: *pos,
                piece: *piece,
                board: newBoard,
                ntake: res.ntake,
                score: res.score,
                capturedPieceLocs: captured,
            },
        )
    }

    /// Every placement open to `piece`, in row-major order, each with the
    /// board it leads to. A placement's score is its move score times the
    /// number of placements open to `piece` here.
    pub fn genNextBoards(&self, piece: &Piece) -> (r: Vec<SearchResult2>)
        requires
            self.wf(),
        ensures
            r@.len() == legal_cells(self@, *piece).len(),
            forall|i: int|
                0 <= i < r@.len() ==> outcome_of(
                    self@,
                    *piece,
                    legal_cells(self@, *piece)[i],
                    legal_cells(self@, *piece).len() as int,
                    #[trigger] r@[i],
                ),
    {
        let ghost s = self@;
        let ghost cells = legal_cells(s, *piece);
        let places = self.searchPos(piece);
        let mut results: Vec<SearchResult2> = Vec::new();
        if places.len() == 0 {
            return results;
        }
        proof {
            lemma_legal_upto(s, *piece, 64);
        }
        let freedom: i32 = places.len() as i32;
        let mut i: usize = 0;
        while i < places.len()
            invariant
                self.wf(),
                s == self@,
                cells == legal_cells(s, *piece),
                places@.len() == cells.len(),
                freedom == cells.len(),
                1 <= freedom <= 64,
                forall|j: int|
                    0 <= j < places@.len() ==> resolves_to(
                        s,
                        *piece,
                        cells[j],
                        Some(#[trigger] places@[j]),
                    ),
                0 <= i <= places@.len(),
                results@.len() == i,
                forall|j: int|
                    0 <= j < i ==> outcome_of(
                        s,
                        *piece,
                        cells[j],
                        freedom as int,
                        #[trigger] results@[j],
                    ),
            decreases places@.len() - i,
        {
            let pos = places[i].pos;
            let mut result = self.put(piece, &pos).unwrap();
            proof {
                lemma_upto_bounds(s, *piece, pos.x as int, pos.y as int, 8);
                assert(-228 * 64 <= move_score(s, *piece, pos.x as int, pos.y as int) * freedom
                    <= 684 * 64) by (nonlinear_arith)
                    requires
                        -228 <= move_score(s, *piece, pos.x as int, pos.y as int) <= 684,
                        1 <= freedom <= 64,
                ;
            }
            result.score = result.score * freedom;
            results.push(result);
            i = i + 1;
        }
        results
    }
}

} // verus!
