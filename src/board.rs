use vstd::prelude::*;

verus! {

/// The content of one cell: empty, or a stone of one of the two sides.
#[derive(Clone, Copy, Debug, PartialEq, Eq, Structural)]
pub enum Piece {
    Space,
    White,
    Black,
}

/// The side that plays against `p`; an empty cell is its own opponent.
pub open spec fn opponent(p: Piece) -> Piece {
    match p {
        Piece::Space => Piece::Space,
        Piece::White => Piece::Black,
        Piece::Black => Piece::White,
    }
}

impl Piece {
    pub fn getOpponent(piece: &Piece) -> (r: Piece)
        ensures
            r == opponent(*piece),
    {
        match *piece {
            Piece::Space => Piece::Space,
            Piece::White => Piece::Black,
            Piece::Black => Piece::White,
        }
    }

    /// Name shown for a piece. The two sides are named after the stone
    /// glyph the text display draws for them, so `White` reads "Black".
    pub fn to_str(&self) -> (r: &'static str)
        ensures
            r@ == piece_name(*self)@,
    {
        match self {
            Piece::Space => "Space",
            Piece::White => "Black",
            Piece::Black => "White",
        }
    }
}

pub open spec fn piece_name(p: Piece) -> &'static str {
    match p {
        Piece::Space => "Space",
        Piece::White => "Black",
        Piece::Black => "White",
    }
}

/// A board coordinate; a cell of the board has both components in 1..=8.
#[derive(Clone, Copy, Debug, PartialEq, Eq, Structural)]
pub struct Pos {
    pub x: i32,
    pub y: i32,
}

pub open spec fn on_board(x: int, y: int) -> bool {
    1 <= x <= 8 && 1 <= y <= 8
}

/// Row-major index of the cell `(x, y)`.
pub open spec fn index_of(x: int, y: int) -> int {
    (y - 1) * 8 + (x - 1)
}

/// Column of the cell at row-major index `i`.
pub open spec fn col_of(i: int) -> int {
    i % 8 + 1
}

/// Row of the cell at row-major index `i`.
pub open spec fn row_of(i: int) -> int {
    i / 8 + 1
}

/// The coordinate of the cell at row-major index `i`.
pub open spec fn pos_at(i: int) -> Pos {
    Pos { x: col_of(i) as i32, y: row_of(i) as i32 }
}

/// The unit step of direction `d`: north first, then clockwise.
pub open spec fn delta(d: int) -> (int, int) {
    if d == 0 {
        (0, -1)
    } else if d == 1 {
        (1, -1)
    } else if d == 2 {
        (1, 0)
    } else if d == 3 {
        (1, 1)
    } else if d == 4 {
        (0, 1)
    } else if d == 5 {
        (-1, 1)
    } else if d == 6 {
        (-1, 0)
    } else if d == 7 {
        (-1, -1)
    } else {
        (0, 0)
    }
}

pub open spec fn is_corner(x: int, y: int) -> bool {
    (x == 1 || x == 8) && (y == 1 || y == 8)
}

/// Cells that touch a corner, orthogonally or diagonally.
pub open spec fn next_to_corner(x: int, y: int) -> bool {
    (x <= 2 || x >= 7) && (y <= 2 || y >= 7) && !is_corner(x, y)
}

/// Positional weight of an on-board cell.
pub open spec fn weight(x: int, y: int) -> int {
    if is_corner(x, y) {
        12
    } else if next_to_corner(x, y) {
        -4
    } else {
        1
    }
}

/// The content of `(x, y)` on the cells `s`, or `None` off the board.
pub open spec fn cell(s: Seq<Piece>, x: int, y: int) -> Option<Piece> {
    if on_board(x, y) {
        Some(s[index_of(x, y)])
    } else {
        None
    }
}

/// Number of the first `n` cells of `s` that hold `p`.
pub open spec fn tally_upto(s: Seq<Piece>, p: Piece, n: int) -> nat
    decreases n,
{
    if n <= 0 {
        0
    } else {
        tally_upto(s, p, n - 1) + if s[n - 1] == p {
            1nat
        } else {
            0nat
        }
    }
}

/// Number of cells of `s` that hold `p`.
pub open spec fn tally(s: Seq<Piece>, p: Piece) -> nat {
    tally_upto(s, p, s.len() as int)
}

pub proof fn lemma_index_of_cell(x: int, y: int)
    requires
        on_board(x, y),
    ensures
        0 <= index_of(x, y) < 64,
        col_of(index_of(x, y)) == x,
        row_of(index_of(x, y)) == y,
        pos_at(index_of(x, y)) == (Pos { x: x as i32, y: y as i32 }),
{
}

pub proof fn lemma_cell_of_index(i: int)
    requires
        0 <= i < 64,
    ensures
        on_board(col_of(i), row_of(i)),
        index_of(col_of(i), row_of(i)) == i,
{
}

pub proof fn lemma_tally_bound(s: Seq<Piece>, p: Piece, n: int)
    requires
        0 <= n,
    ensures
        tally_upto(s, p, n) <= n,
    decreases n,
{
    if n > 0 {
        lemma_tally_bound(s, p, n - 1);
    }
}

/// Column letter of `x` as the display writes it; a blank off the board.
pub open spec fn column_label(x: int) -> Seq<char> {
    if x == 1 {
        seq!['A']
    } else if x == 2 {
        seq!['B']
    } else if x == 3 {
        seq!['C']
    } else if x == 4 {
        seq!['D']
    } else if x == 5 {
        seq!['E']
    } else if x == 6 {
        seq!['F']
    } else if x == 7 {
        seq!['G']
    } else if x == 8 {
        seq!['H']
    } else {
        seq![' ']
    }
}

/// Column of the letter `c` among 'A'..='H', or 0 for any other character.
pub open spec fn letter_column(c: char) -> int {
    if c == 'A' {
        1
    } else if c == 'B' {
        2
    } else if c == 'C' {
        3
    } else if c == 'D' {
        4
    } else if c == 'E' {
        5
    } else if c == 'F' {
        6
    } else if c == 'G' {
        7
    } else if c == 'H' {
        8
    } else {
        0
    }
}

/// The decimal digit `d`.
pub open spec fn digit_char(d: int) -> char {
    if d == 0 {
        '0'
    } else if d == 1 {
        '1'
    } else if d == 2 {
        '2'
    } else if d == 3 {
        '3'
    } else if d == 4 {
        '4'
    } else if d == 5 {
        '5'
    } else if d == 6 {
        '6'
    } else if d == 7 {
        '7'
    } else if d == 8 {
        '8'
    } else {
        '9'
    }
}

/// Value of the decimal digit `c`, or -1 when `c` is not one.
pub open spec fn digit_value(c: char) -> int {
    if c == '0' {
        0
    } else if c == '1' {
        1
    } else if c == '2' {
        2
    } else if c == '3' {
        3
    } else if c == '4' {
        4
    } else if c == '5' {
        5
    } else if c == '6' {
        6
    } else if c == '7' {
        7
    } else if c == '8' {
        8
    } else if c == '9' {
        9
    } else {
        -1
    }
}

/// Decimal digits of `n`, most significant first.
pub open spec fn digits(n: nat) -> Seq<char>
    decreases n,
{
    if n < 10 {
        seq![digit_char(n as int)]
    } else {
        digits(n / 10).push(digit_char((n % 10) as int))
    }
}

/// Decimal form of `n`, with a leading '-' when it is negative.
pub open spec fn decimal(n: int) -> Seq<char> {
    if n < 0 {
        seq!['-'] + digits((-n) as nat)
    } else {
        digits(n as nat)
    }
}

/// The cell a typed move names: a column letter 'A'..='H' followed by a row
/// digit '1'..='8'; anything after those two characters is ignored.
pub open spec fn desc_pos(cs: Seq<char>) -> Option<Pos> {
    if cs.len() >= 2 && letter_column(cs[0]) != 0 && 1 <= digit_value(cs[1]) <= 8 {
        Some(Pos { x: letter_column(cs[0]) as i32, y: digit_value(cs[1]) as i32 })
    } else {
        None
    }
}

/// The piece a board text draws with `c`: a black circle for `White`, a
/// white circle for `Black`, anything else for an empty cell.
pub open spec fn glyph_piece(c: char) -> Piece {
    if c == '\u{25CF}' {
        Piece::White
    } else if c == '\u{25CB}' {
        Piece::Black
    } else {
        Piece::Space
    }
}

/// A board text has a grid: two heading lines, then eight rows of which the
/// characters at 2..10 are the cells.
pub open spec fn text_has_grid(lines: Seq<Vec<char>>) -> bool {
    &&& lines.len() >= 10
    &&& forall|i: int| 2 <= i < 10 ==> #[trigger] lines[i]@.len() >= 10
}

/// The cells a board text draws, in row-major order.
pub open spec fn text_cells(lines: Seq<Vec<char>>) -> Seq<Piece> {
    Seq::new(64, |k: int| glyph_piece(lines[row_of(k) + 1]@[col_of(k) + 1]))
}

/// Appends the decimal digits of `n` to `out`.
fn push_digits(out: &mut String, n: u64)
    ensures
        final(out)@ == old(out)@ + digits(n as nat),
    decreases n,
{
    if n >= 10 {
        push_digits(out, n / 10);
    }
    let d = n % 10;
    let t: &str = match d {
        0 => "0",
        1 => "1",
        2 => "2",
        3 => "3",
        4 => "4",
        5 => "5",
        6 => "6",
        7 => "7",
        8 => "8",
        _ => "9",
    };
    proof {
        reveal_strlit("0");
        reveal_strlit("1");
        reveal_strlit("2");
        reveal_strlit("3");
        reveal_strlit("4");
        reveal_strlit("5");
        reveal_strlit("6");
        reveal_strlit("7");
        reveal_strlit("8");
        reveal_strlit("9");
    }
    let ghost before = out@;
    out.append(t);
    proof {
        if n >= 10 {
            assert(out@ =~= old(out)@ + digits(n as nat));
        } else {
            assert(out@ =~= old(out)@ + digits(n as nat));
        }
    }
}

impl Pos {
    /// Row-major index of `(x, y)`, or `None` when it is off the board.
    pub fn idx(x: i32, y: i32) -> (r: Option<usize>)
        ensures
            r == if on_board(x as int, y as int) {
                Some(index_of(x as int, y as int) as usize)
            } else {
                None
            },
    {
        if (x >= 1) && (x <= 8) && (y >= 1) && (y <= 8) {
            Some(((y - 1) * 8 + (x - 1)) as usize)
        } else {
            None
        }
    }

    /// Label of `(x, y)` for display: the column letter, then the row number.
    pub fn toDesc(x: i32, y: i32) -> (r: String)
        ensures
            r@ == column_label(x as int) + decimal(y as int),
    {
        let xstr: &str = match x {
            1 => "A",
            2 => "B",
            3 => "C",
            4 => "D",
            5 => "E",
            6 => "F",
            7 => "G",
            8 => "H",
            _ => " ",
        };
        proof {
            reveal_strlit("A");
            reveal_strlit("B");
            reveal_strlit("C");
            reveal_strlit("D");
            reveal_strlit("E");
            reveal_strlit("F");
            reveal_strlit("G");
            reveal_strlit("H");
            reveal_strlit(" ");
            reveal_strlit("-");
        }
        let mut r = String::from_str(xstr);
        let magnitude: u64 = if y < 0 {
            r.append("-");
            (-(y as i64)) as u64
        } else {
            y as u64
        };
        push_digits(&mut r, magnitude);
        proof {
            assert(r@ =~= column_label(x as int) + decimal(y as int));
        }
        r
    }

    /// The cell a typed move names (see `desc_pos`), from the characters of
    /// the input line with surrounding blanks removed and letters in capitals.
    pub fn fromDesc(cs: &Vec<char>) -> (r: Option<Pos>)
        ensures
            r == desc_pos(cs@),
    {
        if cs.len() < 2 {
            return None;
        }
        let x: i32 = match cs[0] {
            'A' => 1,
            'B' => 2,
            'C' => 3,
            'D' => 4,
            'E' => 5,
            'F' => 6,
            'G' => 7,
            'H' => 8,
            _ => 0,
        };
        if x == 0 {
            return None;
        }
        let y: i32 = match cs[1] {
            '0' => 0,
            '1' => 1,
            '2' => 2,
            '3' => 3,
            '4' => 4,
            '5' => 5,
            '6' => 6,
            '7' => 7,
            '8' => 8,
            '9' => 9,
            _ => -1,
        };
        if (y >= 1) && (y <= 8) {
            Some(Pos { x, y })
        } else {
            None
        }
    }

    /// The unit step of direction `dir`; `(0, 0)` outside 0..8.
    pub fn getDxDy(dir: i32) -> (r: (i32, i32))
        ensures
            r.0 == delta(dir as int).0,
            r.1 == delta(dir as int).1,
    {
        match dir {
            0 => (0, -1),
            1 => (1, -1),
            2 => (1, 0),
            3 => (1, 1),
            4 => (0, 1),
            5 => (-1, 1),
            6 => (-1, 0),
            7 => (-1, -1),
            _ => (0, 0),
        }
    }
}

/// Stones of each side on a board.
#[derive(Clone, Debug, PartialEq, Eq, Structural)]
pub struct Count {
    pub nWhitePieces: i32,
    pub nBlackPieces: i32,
}

/// An 8x8 board: the cells in row-major order and the positional weight
/// of each cell, fixed when the board is made.
#[derive(Clone, Copy, Debug, PartialEq, Eq)]
pub struct Board {
    pieces: [Piece; 64],
    coefs: [i32; 64],
}

impl Board {
    /// The cells in row-major order.
    pub closed spec fn view(&self) -> Seq<Piece> {
        self.pieces@
    }

    /// The weight table holds the weight of each cell.
    pub closed spec fn wf(&self) -> bool {
        forall|i: int| 0 <= i < 64 ==> self.coefs@[i] == weight(col_of(i), row_of(i))
    }

    pub proof fn lemma_len(&self)
        ensures
            self@.len() == 64,
    {
    }

    /// An empty board.
    pub fn new() -> (r: Board)
        ensures
            r.wf(),
            r@ == Seq::new(64, |i: int| Piece::Space),
    {
        let mut coefs: [i32; 64] = [1i32; 64];
        let mut i: usize = 0;
        while i < 64
            invariant
                0 <= i <= 64,
                forall|j: int| 0 <= j < i ==> coefs@[j] == weight(col_of(j), row_of(j)),
            decreases 64 - i,
        {
            let x: i32 = (i % 8) as i32 + 1;
            let y: i32 = (i / 8) as i32 + 1;
            let c: i32 = if (x == 1 || x == 8) && (y == 1 || y == 8) {
                12
            } else if (x <= 2 || x >= 7) && (y <= 2 || y >= 7) {
                -4
            } else {
                1
            };
            coefs[i] = c;
            i = i + 1;
        }
        let r = Board { pieces: [Piece::Space; 64], coefs };
        assert(r@ =~= Seq::new(64, |i: int| Piece::Space));
        r
    }

    /// Puts the standard opening: four stones in the centre.
    pub fn init(&mut self)
        requires
            old(self).wf(),
        ensures
            final(self).wf(),
            final(self)@ == old(self)@.update(index_of(4, 4), Piece::White).update(
                index_of(5, 5),
                Piece::White,
            ).update(index_of(4, 5), Piece::Black).update(index_of(5, 4), Piece::Black),
    {
        self.setPiece(4, 4, Piece::White);
        self.setPiece(5, 5, Piece::White);
        self.setPiece(4, 5, Piece::Black);
        self.setPiece(5, 4, Piece::Black);
    }

    /// Fills every cell from the lines of a board text (see `text_cells`).
    /// Returns false, changing nothing, when the text has no full grid.
    pub fn load(&mut self, lines: &Vec<Vec<char>>) -> (r: bool)
        requires
            old(self).wf(),
        ensures
            final(self).wf(),
            r == text_has_grid(lines@),
            r ==> final(self)@ == text_cells(lines@),
            !r ==> final(self)@ == old(self)@,
    {
        if lines.len() < 10 {
            return false;
        }
        let mut i: usize = 2;
        while i < 10
            invariant
                lines@.len() >= 10,
                self.wf(),
                self@ == old(self)@,
                2 <= i <= 10,
                forall|j: int| 2 <= j < i ==> #[trigger] lines@[j]@.len() >= 10,
            decreases 10 - i,
        {
            if lines[i].len() < 10 {
                return false;
            }
            i = i + 1;
        }
        let ghost start = self@;
        proof {
            self.lemma_len();
        }
        let mut k: usize = 0;
        while k < 64
            invariant
                text_has_grid(lines@),
                self.wf(),
                0 <= k <= 64,
                self@.len() == 64,
                start.len() == 64,
                forall|j: int| 0 <= j < k ==> self@[j] == #[trigger] text_cells(lines@)[j],
                forall|j: int| k <= j < 64 ==> self@[j] == start[j],
            decreases 64 - k,
        {
            let x: usize = k % 8 + 1;
            let y: usize = k / 8 + 1;
            let ch = lines[y + 1][x + 1];
            let piece = if ch == '\u{25CF}' {
                Piece::White
            } else if ch == '\u{25CB}' {
                Piece::Black
            } else {
                Piece::Space
            };
            self.setPiece(x as i32, y as i32, piece);
            k = k + 1;
        }
        proof {
            assert(self@ =~= text_cells(lines@));
        }
        true
    }

    /// Writes `piece` at `(x, y)`; a coordinate off the board changes nothing.
    pub fn setPiece(&mut self, x: i32, y: i32, piece: Piece)
        requires
            old(self).wf(),
        ensures
            final(self).wf(),
            final(self)@ == if on_board(x as int, y as int) {
                old(self)@.update(index_of(x as int, y as int), piece)
            } else {
                old(self)@
            },
    {
        if let Some(idx) = Pos::idx(x, y) {
            self.pieces[idx] = piece;
        }
    }

    /// The content of `(x, y)`, or `None` off the board.
    pub fn getPiece(&self, x: i32, y: i32) -> (r: Option<&Piece>)
        ensures
            r.is_some() == on_board(x as int, y as int),
            r.is_some() ==> cell(self@, x as int, y as int) == Some(*r.unwrap()),
    {
        if let Some(idx) = Pos::idx(x, y) {
            Some(&self.pieces[idx])
        } else {
            None
        }
    }

    /// The weight of `(x, y)`, or 0 off the board.
    pub fn getCoef(&self, x: i32, y: i32) -> (r: i32)
        requires
            self.wf(),
        ensures
            r == if on_board(x as int, y as int) {
                weight(x as int, y as int)
            } else {
                0
            },
    {
        if let Some(idx) = Pos::idx(x, y) {
            proof {
                lemma_index_of_cell(x as int, y as int);
            }
            self.coefs[idx]
        } else {
            0
        }
    }

    /// Stones of each side on the board.
    pub fn getCount(&self) -> (r: Count)
        ensures
            r.nWhitePieces == tally(self@, Piece::White),
            r.nBlackPieces == tally(self@, Piece::Black),
    {
        let mut nWhitePieces: i32 = 0;
        let mut nBlackPieces: i32 = 0;
        let mut i: usize = 0;
        while i < 64
            invariant
                0 <= i <= 64,
                self@.len() == 64,
                nWhitePieces == tally_upto(self@, Piece::White, i as int),
                nBlackPieces == tally_upto(self@, Piece::Black, i as int),
            decreases 64 - i,
        {
            proof {
                lemma_tally_bound(self@, Piece::White, i as int);
                lemma_tally_bound(self@, Piece::Black, i as int);
            }
            match self.pieces[i] {
                Piece::White => {
                    nWhitePieces = nWhitePieces + 1;
                },
                Piece::Black => {
                    nBlackPieces = nBlackPieces + 1;
                },
                Piece::Space => {},
            }
            i = i + 1;
        }
        Count { nWhitePieces, nBlackPieces }
    }
}

} // verus!
