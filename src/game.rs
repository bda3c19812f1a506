//! A game between a player and the computer, one turn at a time. The
//! caller draws the board, collects the player's clicks, and reports what
//! each turn returns.
use crate::board::{opponent, Board, Piece, Pos};
use crate::rays::{legal, placed};
use crate::rules::{legal_cells, outcome_of, SearchResult2};
use crate::search::{best_index, start_line, tree_leaves};
use vstd::prelude::*;

verus! {

/// Left edge of the grid in the game window, in pixels.
pub const LEFT_MARGIN: i32 = 32;

/// Top edge of the grid in the game window, in pixels.
pub const TOP_MARGIN: i32 = 32;

/// Side of one cell in the game window, in pixels.
pub const CELL_SIZE: i32 = 96;

/// The cell drawn under the pixel `(x, y)`, or `None` outside the grid.
pub open spec fn click_cell(x: int, y: int) -> Option<Pos> {
    let px = x - LEFT_MARGIN as int;
    let py = y - TOP_MARGIN as int;
    let size = CELL_SIZE as int;
    if 0 <= px < 8 * size && 0 <= py < 8 * size {
        Some(Pos { x: (px / size + 1) as i32, y: (py / size + 1) as i32 })
    } else {
        None
    }
}

/// The cell under a mouse click at `(x, y)` in the game window.
pub fn getPosOnMouseClick(x: i32, y: i32) -> (r: Option<Pos>)
    ensures
        r == click_cell(x as int, y as int),
{
    if x < LEFT_MARGIN || y < TOP_MARGIN {
        return None;
    }
    let px = x - LEFT_MARGIN;
    let py = y - TOP_MARGIN;
    let ix = px / CELL_SIZE;
    let iy = py / CELL_SIZE;
    if (ix > 7) || (iy > 7) {
        return None;
    }
    Some(Pos { x: ix + 1, y: iy + 1 })
}

/// The state between turns.
pub struct Game {
    pub board: Board,
    /// The player's side.
    pub player: Piece,
    /// The computer's side.
    pub computer: Piece,
    /// The player had no placement on their last turn.
    pub playerPass: bool,
    /// The computer had no placement on its last turn.
    pub computerPass: bool,
}

/// What a player's turn did.
pub enum PlayerTurn {
    /// The player has a placement but gave no cell yet.
    Waiting,
    /// The given cell is not a legal placement; nothing changed.
    Rejected(Pos),
    /// The player placed a stone.
    Placed(SearchResult2),
    /// The player has no placement.
    Passed,
}

/// What the computer's turn did.
pub enum ComputerTurn {
    /// The computer placed a stone.
    Placed(SearchResult2),
    /// The computer has no placement.
    Passed,
}

impl Game {
    pub open spec fn wf(&self) -> bool {
        self.board.wf()
    }

    /// A game on `board`, the player playing `player`.
    pub fn new(board: Board, player: Piece) -> (r: Game)
        requires
            board.wf(),
        ensures
            r.wf(),
            r.board == board,
            r.player == player,
            r.computer == opponent(player),
            !r.playerPass,
            !r.computerPass,
    {
        Game {
            board,
            player,
            computer: Piece::getOpponent(&player),
            playerPass: false,
            computerPass: false,
        }
    }

    /// Both sides had no placement, one after the other.
    pub fn isOver(&self) -> (r: bool)
        ensures
            r == (self.playerPass && self.computerPass),
    {
        self.playerPass && self.computerPass
    }

    /// The player's turn, `input` being the cell they chose, if any.
    pub fn playerTurn(&mut self, input: Option<Pos>) -> (r: PlayerTurn)
        requires
            old(self).wf(),
        ensures
            final(self).wf(),
            final(self).player == old(self).player,
            final(self).computer == old(self).computer,
            final(self).computerPass == old(self).computerPass,
            ({
                let s = old(self).board@;
                let me = old(self).player;
                if legal_cells(s, me).len() == 0 {
                    &&& r is Passed
                    &&& final(self).board == old(self).board
                    &&& final(self).playerPass
                } else {
                    match input {
                        None => {
                            &&& r is Waiting
                            &&& final(self).board == old(self).board
                            &&& final(self).playerPass == old(self).playerPass
                        },
                        Some(p) => if legal(s, me, p.x as int, p.y as int) {
                            &&& r matches PlayerTurn::Placed(o) && outcome_of(s, me, p, 1, o)
                                && final(self).board == o.board
                            &&& final(self).board@ == placed(s, me, p.x as int, p.y as int)
                            &&& !final(self).playerPass
                        } else {
                            &&& r == PlayerTurn::Rejected(p)
                            &&& final(self).board == old(self).board
                            &&& final(self).playerPass == old(self).playerPass
                        },
                    }
                }
            }),
    {
        let possibleMoves = self.board.searchPos(&self.player);
        if possibleMoves.len() == 0 {
            self.playerPass = true;
            return PlayerTurn::Passed;
        }
        let pos = match input {
            None => {
                return PlayerTurn::Waiting;
            },
            Some(pos) => pos,
        };
        match self.board.put(&self.player, &pos) {
            Some(ret) => {
                self.board = ret.board;
                self.playerPass = false;
                PlayerTurn::Placed(ret)
            },
            None => PlayerTurn::Rejected(pos),
        }
    }

    /// The computer's turn: it plays the first step of its best line,
    /// looking `depth` plies ahead.
    pub fn computerTurn(&mut self, depth: i32) -> (r: ComputerTurn)
        requires
            old(self).wf(),
        ensures
            final(self).wf(),
            final(self).player == old(self).player,
            final(self).computer == old(self).computer,
            final(self).playerPass == old(self).playerPass,
            ({
                let s = old(self).board@;
                let me = old(self).computer;
                if depth <= 0 || legal_cells(s, me).len() == 0 {
                    &&& r is Passed
                    &&& final(self).board == old(self).board
                    &&& final(self).computerPass
                } else {
                    let leaves = tree_leaves(s, me, me, depth as int, start_line(s));
                    let p = leaves[best_index(leaves, leaves.len() as int)].path[0].pos;
                    &&& legal(s, me, p.x as int, p.y as int)
                    &&& r matches ComputerTurn::Placed(o) && outcome_of(s, me, p, 1, o)
                        && final(self).board == o.board
                    &&& final(self).board@ == placed(s, me, p.x as int, p.y as int)
                    &&& !final(self).computerPass
                }
            }),
    {
        match self.board.getBestMove(&self.computer, depth) {
            Some(result) => {
                let nextPos = result.path[0].pos;
                let ret = self.board.put(&self.computer, &nextPos).unwrap();
                self.board = ret.board;
                self.computerPass = false;
                ComputerTurn::Placed(ret)
            },
            None => {
                self.computerPass = true;
                ComputerTurn::Passed
            },
        }
    }
}

} // verus!
