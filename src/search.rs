//! Choosing a move by looking a bounded number of plies ahead.
//!
//! At each ply only the placements with the highest score for the side to
//! move are followed; a side without a placement ends its line there.
use crate::board::{opponent, tally, Board, Piece, Pos};
use crate::counting::lemma_placed_tallies;
use crate::rays::{capture_count, legal, lemma_upto_bounds, move_score, placed};
use crate::rules::{legal_cells, lemma_legal_upto, outcome_of, SearchResult2};
use vstd::prelude::*;

verus! {

/// One step of a line of play: `piece` is placed at `pos`.
#[derive(Clone, Copy, Debug, PartialEq, Eq, Structural)]
pub struct SearchResult3Sub {
    pub pos: Pos,
    pub piece: Piece,
}

/// A line of play from the searched position.
#[derive(Clone, Debug, PartialEq)]
pub struct SearchResult3 {
    /// The placements, first to last.
    pub path: Vec<SearchResult3Sub>,
    /// The board at the end of the line.
    pub board: Board,
    /// Stones captured by the searching side, less those captured by its opponent.
    pub ntake: i32,
    /// Scores of the searching side's placements, less those of its opponent's.
    pub score: i32,
}

/// A line of play as values.
pub struct Line {
    pub path: Seq<SearchResult3Sub>,
    pub board: Seq<Piece>,
    pub ntake: int,
    pub score: int,
}

impl SearchResult3 {
    pub open spec fn view(&self) -> Line {
        Line {
            path: self.path@,
            board: self.board@,
            ntake: self.ntake as int,
            score: self.score as int,
        }
    }
}

pub open spec fn views(v: Seq<SearchResult3>) -> Seq<Line> {
    v.map_values(|r: SearchResult3| r@)
}

/// The empty line at the cells `s`.
pub open spec fn start_line(s: Seq<Piece>) -> Line {
    Line { path: seq![], board: s, ntake: 0, score: 0 }
}

/// Score of placing `me` at `p`: its move score times the number of
/// placements open to `me` on `s`.
pub open spec fn cand_score(s: Seq<Piece>, me: Piece, p: Pos) -> int {
    move_score(s, me, p.x as int, p.y as int) * legal_cells(s, me).len()
}

/// Highest score among the first `n` placements open to `me`.
pub open spec fn best_upto(s: Seq<Piece>, me: Piece, n: int) -> int
    decreases n,
{
    if n <= 1 {
        cand_score(s, me, legal_cells(s, me)[0])
    } else {
        let m = best_upto(s, me, n - 1);
        let c = cand_score(s, me, legal_cells(s, me)[n - 1]);
        if c > m {
            c
        } else {
            m
        }
    }
}

/// Highest score among the placements open to `me`.
pub open spec fn best_score(s: Seq<Piece>, me: Piece) -> int {
    best_upto(s, me, legal_cells(s, me).len() as int)
}

/// `line` continued by `me` placing at `p` on `s`; the gains of `orig`
/// count up, those of its opponent down.
pub open spec fn extend(s: Seq<Piece>, orig: Piece, me: Piece, line: Line, p: Pos) -> Line {
    let x = p.x as int;
    let y = p.y as int;
    let gain = capture_count(s, me, x, y) as int;
    let sc = cand_score(s, me, p);
    Line {
        path: line.path.push(SearchResult3Sub { pos: p, piece: me }),
        board: placed(s, me, x, y),
        ntake: if me == orig {
            line.ntake + gain
        } else {
            line.ntake - gain
        },
        score: if me == orig {
            line.score + sc
        } else {
            line.score - sc
        },
    }
}

/// The ends of the lines searched from `line` at the cells `s`, `me` to
/// move, `depth` plies to go, in the order they are found. A side with no
/// placement ends the line where it stands.
pub open spec fn tree_leaves(s: Seq<Piece>, orig: Piece, me: Piece, depth: int, line: Line) -> Seq<
    Line,
>
    decreases depth, 1int, 0int,
{
    if depth <= 0 {
        seq![]
    } else if legal_cells(s, me).len() == 0 {
        seq![line]
    } else {
        branch_leaves(s, orig, me, depth, line, 0)
    }
}

/// The ends of the lines that follow the best placements from the `i`-th on.
pub open spec fn branch_leaves(
    s: Seq<Piece>,
    orig: Piece,
    me: Piece,
    depth: int,
    line: Line,
    i: int,
) -> Seq<Line>
    decreases depth, 0int, legal_cells(s, me).len() - i,
{
    let cells = legal_cells(s, me);
    if depth <= 0 || i < 0 || i >= cells.len() {
        seq![]
    } else {
        let rest = branch_leaves(s, orig, me, depth, line, i + 1);
        if cand_score(s, me, cells[i]) == best_score(s, me) {
            let child = extend(s, orig, me, line, cells[i]);
            let sub = if depth > 1 {
                tree_leaves(child.board, orig, opponent(me), depth - 1, child)
            } else {
                seq![child]
            };
            sub + rest
        } else {
            rest
        }
    }
}

/// `line` has at most one step per cell, and its totals stay within what
/// that many steps can reach (a placement scores at most 684 times 64).
pub open spec fn line_bounded(line: Line) -> bool {
    let n = line.path.len() as int;
    &&& n <= 64
    &&& -43776 * n <= line.score <= 43776 * n
    &&& -56 * n <= line.ntake <= 56 * n
}

/// Index of the first line with the highest score among the first `n`.
pub open spec fn best_index(ls: Seq<Line>, n: int) -> int
    decreases n,
{
    if n <= 1 {
        0
    } else {
        let b = best_index(ls, n - 1);
        if ls[n - 1].score > ls[b].score {
            n - 1
        } else {
            b
        }
    }
}

pub proof fn lemma_best_upto(s: Seq<Piece>, me: Piece, n: int)
    requires
        1 <= n <= legal_cells(s, me).len(),
    ensures
        forall|j: int|
            0 <= j < n ==> cand_score(s, me, #[trigger] legal_cells(s, me)[j]) <= best_upto(
                s,
                me,
                n,
            ),
    decreases n,
{
    if n > 1 {
        lemma_best_upto(s, me, n - 1);
    }
}

/// Every line found from `line` starts with `line`; when `me` has a
/// placement and plies remain, it continues with a legal placement of `me`.
pub proof fn lemma_tree_prefix(s: Seq<Piece>, orig: Piece, me: Piece, depth: int, line: Line)
    ensures
        forall|i: int|
            0 <= i < tree_leaves(s, orig, me, depth, line).len() ==> {
                let l = #[trigger] tree_leaves(s, orig, me, depth, line)[i];
                &&& l.path.len() >= line.path.len()
                &&& l.path.subrange(0, line.path.len() as int) == line.path
                &&& (depth > 0 && legal_cells(s, me).len() > 0) ==> {
                    &&& l.path.len() > line.path.len()
                    &&& l.path[line.path.len() as int].piece == me
                    &&& legal(
                        s,
                        me,
                        l.path[line.path.len() as int].pos.x as int,
                        l.path[line.path.len() as int].pos.y as int,
                    )
                }
            },
    decreases depth, 1int, 0int,
{
    if depth > 0 {
        if legal_cells(s, me).len() == 0 {
            assert(line.path.subrange(0, line.path.len() as int) =~= line.path);
        } else {
            lemma_branch_prefix(s, orig, me, depth, line, 0);
        }
    }
}

pub proof fn lemma_branch_prefix(
    s: Seq<Piece>,
    orig: Piece,
    me: Piece,
    depth: int,
    line: Line,
    i: int,
)
    ensures
        forall|j: int|
            0 <= j < branch_leaves(s, orig, me, depth, line, i).len() ==> {
                let l = #[trigger] branch_leaves(s, orig, me, depth, line, i)[j];
                &&& l.path.len() > line.path.len()
                &&& l.path.subrange(0, line.path.len() as int) == line.path
                &&& l.path[line.path.len() as int].piece == me
                &&& legal(
                    s,
                    me,
                    l.path[line.path.len() as int].pos.x as int,
                    l.path[line.path.len() as int].pos.y as int,
                )
            },
    decreases depth, 0int, legal_cells(s, me).len() - i,
{
    let cells = legal_cells(s, me);
    if !(depth <= 0 || i < 0 || i >= cells.len()) {
        lemma_branch_prefix(s, orig, me, depth, line, i + 1);
        let rest = branch_leaves(s, orig, me, depth, line, i + 1);
        if cand_score(s, me, cells[i]) == best_score(s, me) {
            let child = extend(s, orig, me, line, cells[i]);
            let step = SearchResult3Sub { pos: cells[i], piece: me };
            let n = line.path.len() as int;
            lemma_legal_upto(s, me, 64);
            assert(legal(s, me, cells[i].x as int, cells[i].y as int));
            let sub = if depth > 1 {
                tree_leaves(child.board, orig, opponent(me), depth - 1, child)
            } else {
                seq![child]
            };
            if depth > 1 {
                lemma_tree_prefix(child.board, orig, opponent(me), depth - 1, child);
            }
            assert forall|j: int| 0 <= j < sub.len() implies {
                let l = #[trigger] sub[j];
                &&& l.path.len() > n
                &&& l.path.subrange(0, n) == line.path
                &&& l.path[n] == step
            } by {
                let l = sub[j];
                if depth > 1 {
                    assert(l.path.subrange(0, n + 1) == child.path);
                } else {
                    assert(l == child);
                }
                assert(l.path.subrange(0, n) =~= l.path.subrange(0, n + 1).subrange(0, n));
                assert(l.path[n] == l.path.subrange(0, n + 1)[n]);
            }
            let all = sub + rest;
            assert forall|j: int| 0 <= j < all.len() implies {
                let l = #[trigger] all[j];
                &&& l.path.len() > n
                &&& l.path.subrange(0, n) == line.path
                &&& l.path[n].piece == me
                &&& legal(s, me, l.path[n].pos.x as int, l.path[n].pos.y as int)
            } by {
                if j < sub.len() {
                    assert(all[j] == sub[j]);
                } else {
                    assert(all[j] == rest[j - sub.len()]);
                }
            }
        }
    }
}

/// Some placement open to `me` reaches the highest score among the first `n`.
pub proof fn lemma_best_attained(s: Seq<Piece>, me: Piece, n: int) -> (k: int)
    requires
        1 <= n <= legal_cells(s, me).len(),
    ensures
        0 <= k < n,
        cand_score(s, me, legal_cells(s, me)[k]) == best_upto(s, me, n),
    decreases n,
{
    if n <= 1 {
        0
    } else {
        let k = lemma_best_attained(s, me, n - 1);
        if cand_score(s, me, legal_cells(s, me)[n - 1]) > best_upto(s, me, n - 1) {
            n - 1
        } else {
            k
        }
    }
}

/// With plies to go, the search finds at least one line.
pub proof fn lemma_leaves_nonempty(s: Seq<Piece>, orig: Piece, me: Piece, depth: int, line: Line)
    requires
        depth > 0,
    ensures
        tree_leaves(s, orig, me, depth, line).len() > 0,
    decreases depth, 1int, 0int,
{
    let n = legal_cells(s, me).len() as int;
    if n > 0 {
        let k = lemma_best_attained(s, me, n);
        lemma_branch_nonempty(s, orig, me, depth, line, 0, k);
    }
}

pub proof fn lemma_branch_nonempty(
    s: Seq<Piece>,
    orig: Piece,
    me: Piece,
    depth: int,
    line: Line,
    i: int,
    k: int,
)
    requires
        depth > 0,
        0 <= i <= k < legal_cells(s, me).len(),
        cand_score(s, me, legal_cells(s, me)[k]) == best_score(s, me),
    ensures
        branch_leaves(s, orig, me, depth, line, i).len() > 0,
    decreases depth, 0int, legal_cells(s, me).len() - i,
{
    let cells = legal_cells(s, me);
    if cand_score(s, me, cells[i]) == best_score(s, me) {
        let child = extend(s, orig, me, line, cells[i]);
        if depth > 1 {
            lemma_leaves_nonempty(child.board, orig, opponent(me), depth - 1, child);
        }
    } else {
        lemma_branch_nonempty(s, orig, me, depth, line, i + 1, k);
    }
}

/// Every line that the search from a board finds and that has a first step
/// starts with a legal placement of the searching side.
pub proof fn lemma_search_first_step_legal(b: Board, me: Piece, depth: int)
    requires
        b.wf(),
    ensures
        forall|i: int|
            0 <= i < tree_leaves(b@, me, me, depth, start_line(b@)).len() ==> {
                let l = #[trigger] tree_leaves(b@, me, me, depth, start_line(b@))[i];
                l.path.len() >= 1 ==> {
                    &&& l.path[0].piece == me
                    &&& legal(b@, me, l.path[0].pos.x as int, l.path[0].pos.y as int)
                }
            },
{
    let s = b@;
    let line = start_line(s);
    lemma_tree_prefix(s, me, me, depth, line);
    if depth > 0 && legal_cells(s, me).len() == 0 {
        assert(tree_leaves(s, me, me, depth, line) == seq![line]);
    }
}

impl Board {
    /// The ends of the lines searched from `tree`, this board being the
    /// position it reached, `piece` to move and `depth` plies to go (see
    /// `tree_leaves`). The scores are those of `origPiece`.
    pub fn genSearchTreeSub(
        &self,
        origPiece: &Piece,
        piece: &Piece,
        depth: i32,
        tree: &SearchResult3,
    ) -> (r: Vec<SearchResult3>)
        requires
            self.wf(),
            tree.board.wf(),
            line_bounded(tree@),
            tree@.path.len() + tally(self@, Piece::Space) <= 64,
        ensures
            views(r@) == tree_leaves(self@, *origPiece, *piece, depth as int, tree@),
            forall|i: int|
                0 <= i < r@.len() ==> (#[trigger] r@[i]).board.wf() && line_bounded(r@[i]@),
        decreases depth,
    {
        let ghost s = self@;
        let ghost line = tree@;
        let mut results: Vec<SearchResult3> = Vec::new();
        if depth <= 0 {
            assert(views(results@) =~= seq![]);
            return results;
        }
        let nextBoards: Vec<SearchResult2> = self.genNextBoards(piece);
        let ghost cells = legal_cells(s, *piece);
        let ghost factor = cells.len() as int;
        if nextBoards.len() == 0 {
            results.push(
                SearchResult3 {
                    path: tree.path.clone(),
                    board: tree.board,
                    ntake: tree.ntake,
                    score: tree.score,
                },
            );
            assert(views(results@) =~= seq![line]);
            return results;
        }
        // the highest score among the candidates
        let mut maxScore: i32 = nextBoards[0].score;
        let mut j: usize = 1;
        while j < nextBoards.len()
            invariant
                1 <= j <= nextBoards@.len(),
                cells == legal_cells(s, *piece),
                factor == cells.len(),
                nextBoards@.len() == cells.len(),
                forall|k: int|
                    0 <= k < nextBoards@.len() ==> outcome_of(
                        s,
                        *piece,
                        cells[k],
                        factor,
                        #[trigger] nextBoards@[k],
                    ),
                maxScore == best_upto(s, *piece, j as int),
            decreases nextBoards@.len() - j,
        {
            if nextBoards[j].score > maxScore {
                maxScore = nextBoards[j].score;
            }
            j = j + 1;
        }
        let mut i: usize = 0;
        while i < nextBoards.len()
            invariant
                self.wf(),
                s == self@,
                line == tree@,
                depth > 0,
                line_bounded(line),
                line.path.len() + tally(s, Piece::Space) <= 64,
                cells == legal_cells(s, *piece),
                factor == cells.len(),
                nextBoards@.len() == cells.len(),
                forall|k: int|
                    0 <= k < nextBoards@.len() ==> outcome_of(
                        s,
                        *piece,
                        cells[k],
                        factor,
                        #[trigger] nextBoards@[k],
                    ),
                maxScore == best_score(s, *piece),
                0 <= i <= nextBoards@.len(),
                views(results@) + branch_leaves(s, *origPiece, *piece, depth as int, line, i as int)
                    == branch_leaves(s, *origPiece, *piece, depth as int, line, 0),
                forall|k: int|
                    0 <= k < results@.len() ==> (#[trigger] results@[k]).board.wf()
                        && line_bounded(results@[k]@),
            decreases nextBoards@.len() - i,
        {
            let nextBoard = &nextBoards[i];
            let ghost rest = branch_leaves(s, *origPiece, *piece, depth as int, line, i + 1);
            if nextBoard.score == maxScore {
                let ghost p = cells[i as int];
                let ghost child = extend(s, *origPiece, *piece, line, p);
                proof {
                    lemma_legal_upto(s, *piece, 64);
                    lemma_placed_tallies(*self, *piece, p);
                    lemma_upto_bounds(s, *piece, p.x as int, p.y as int, 8);
                    assert(-228 * 64 <= move_score(s, *piece, p.x as int, p.y as int) * factor
                        <= 684 * 64) by (nonlinear_arith)
                        requires
                            -228 <= move_score(s, *piece, p.x as int, p.y as int) <= 684,
                            1 <= factor <= 64,
                    ;
                }
                let mut newPath = tree.path.clone();
                newPath.push(SearchResult3Sub { pos: nextBoard.pos, piece: *piece });
                let mut newNtake: i32 = tree.ntake;
                let mut newScore: i32 = tree.score;
                if *piece == *origPiece {
                    newNtake = newNtake + nextBoard.ntake;
                    newScore = newScore + nextBoard.score;
                } else {
                    newNtake = newNtake - nextBoard.ntake;
                    newScore = newScore - nextBoard.score;
                }
                let newDepth: i32 = depth - 1;
                let newTree = SearchResult3 {
                    path: newPath,
                    board: nextBoard.board,
                    ntake: newNtake,
                    score: newScore,
                };
                proof {
                    assert(newTree@.path =~= child.path);
                    assert(newTree@ == child);
                }
                if newDepth > 0 {
                    let mut childResults = nextBoard.board.genSearchTreeSub(
                        origPiece,
                        &Piece::getOpponent(piece),
                        newDepth,
                        &newTree,
                    );
                    let ghost before = results@;
                    let ghost added = childResults@;
                    results.append(&mut childResults);
                    proof {
                        assert(views(results@) =~= views(before) + views(added));
                    }
                } else {
                    let ghost before = results@;
                    results.push(newTree);
                    proof {
                        assert(views(results@) =~= views(before) + seq![child]);
                    }
                }
            }
            i = i + 1;
        }
        proof {
            // no candidate is left to follow
            assert(views(results@) + seq![] =~= views(results@));
        }
        results
    }

    /// The ends of the lines searched from this board, `piece` to move and
    /// `depth` plies to go, scored for `piece`.
    pub fn genSearchTree(&self, piece: &Piece, depth: i32) -> (r: Vec<SearchResult3>)
        requires
            self.wf(),
        ensures
            views(r@) == tree_leaves(self@, *piece, *piece, depth as int, start_line(self@)),
            forall|i: int|
                0 <= i < r@.len() ==> (#[trigger] r@[i]).board.wf() && line_bounded(r@[i]@),
    {
        let root = SearchResult3 { path: Vec::new(), board: *self, ntake: 0, score: 0 };
        proof {
            assert(root@.path =~= seq![]);
            crate::board::lemma_tally_bound(self@, Piece::Space, 64);
            self.lemma_len();
        }
        self.genSearchTreeSub(piece, piece, depth, &root)
    }

    /// The best line for `piece` looking `depth` plies ahead: the first one
    /// found among those with the highest score. `None` when `depth` is not
    /// positive or `piece` has no placement. Only its first step is meant
    /// to be played.
    pub fn getBestMove(&self, piece: &Piece, depth: i32) -> (r: Option<SearchResult3>)
        requires
            self.wf(),
        ensures
            r.is_none() <==> (depth <= 0 || legal_cells(self@, *piece).len() == 0),
            r matches Some(m) ==> {
                let leaves = tree_leaves(self@, *piece, *piece, depth as int, start_line(self@));
                &&& m@ == leaves[best_index(leaves, leaves.len() as int)]
                &&& m.board.wf()
                &&& m.path@.len() >= 1
                &&& m.path@[0].piece == *piece
                &&& legal(self@, *piece, m.path@[0].pos.x as int, m.path@[0].pos.y as int)
            },
    {
        let ghost s = self@;
        let ghost leaves = tree_leaves(s, *piece, *piece, depth as int, start_line(s));
        let mut allMoves = self.genSearchTree(piece, depth);
        proof {
            lemma_search_first_step_legal(*self, *piece, depth as int);
            if depth > 0 {
                lemma_leaves_nonempty(s, *piece, *piece, depth as int, start_line(s));
                if legal_cells(s, *piece).len() == 0 {
                    assert(leaves == seq![start_line(s)]);
                } else {
                    lemma_tree_prefix(s, *piece, *piece, depth as int, start_line(s));
                }
            }
        }
        let mut best: usize = 0;
        let mut bestScore: i32 = i32::MIN;
        let mut i: usize = 0;
        while i < allMoves.len()
            invariant
                views(allMoves@) == leaves,
                forall|k: int|
                    0 <= k < allMoves@.len() ==> (#[trigger] allMoves@[k]).board.wf()
                        && line_bounded(allMoves@[k]@),
                0 <= i <= allMoves@.len(),
                i == 0 ==> bestScore == i32::MIN,
                i > 0 ==> best < i && best == best_index(leaves, i as int) && bestScore
                    == leaves[best as int].score,
            decreases allMoves@.len() - i,
        {
            proof {
                assert(leaves[i as int] == allMoves@[i as int]@);
            }
            if allMoves[i].score > bestScore {
                bestScore = allMoves[i].score;
                best = i;
            }
            i = i + 1;
        }
        if i == 0 {
            return None;
        }
        let m = allMoves.swap_remove(best);
        proof {
            assert(leaves[best as int] == m@);
        }
        if m.path.len() == 0 {
            return None;
        }
        Some(m)
    }
}

} // verus!
