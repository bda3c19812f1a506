use othello::board::{Board, Count, Piece, Pos};

fn start() -> Board {
    let mut b = Board::new();
    b.init();
    b
}

#[test]
fn opponent_of_each_piece() {
    assert_eq!(Piece::getOpponent(&Piece::White), Piece::Black);
    assert_eq!(Piece::getOpponent(&Piece::Black), Piece::White);
    assert_eq!(Piece::getOpponent(&Piece::Space), Piece::Space);
}

#[test]
fn piece_names() {
    assert_eq!(Piece::Space.to_str(), "Space");
    assert_eq!(Piece::White.to_str(), "Black");
    assert_eq!(Piece::Black.to_str(), "White");
}

#[test]
fn index_of_cells() {
    assert_eq!(Pos::idx(1, 1), Some(0));
    assert_eq!(Pos::idx(8, 1), Some(7));
    assert_eq!(Pos::idx(1, 2), Some(8));
    assert_eq!(Pos::idx(8, 8), Some(63));
    assert_eq!(Pos::idx(4, 5), Some(35));
}

#[test]
fn index_rejects_off_board() {
    assert_eq!(Pos::idx(0, 1), None);
    assert_eq!(Pos::idx(9, 1), None);
    assert_eq!(Pos::idx(1, 0), None);
    assert_eq!(Pos::idx(1, 9), None);
    assert_eq!(Pos::idx(-1, -1), None);
    assert_eq!(Pos::idx(i32::MAX, i32::MIN), None);
}

#[test]
fn directions_clockwise_from_north() {
    assert_eq!(Pos::getDxDy(0), (0, -1));
    assert_eq!(Pos::getDxDy(1), (1, -1));
    assert_eq!(Pos::getDxDy(2), (1, 0));
    assert_eq!(Pos::getDxDy(3), (1, 1));
    assert_eq!(Pos::getDxDy(4), (0, 1));
    assert_eq!(Pos::getDxDy(5), (-1, 1));
    assert_eq!(Pos::getDxDy(6), (-1, 0));
    assert_eq!(Pos::getDxDy(7), (-1, -1));
    assert_eq!(Pos::getDxDy(8), (0, 0));
    assert_eq!(Pos::getDxDy(-1), (0, 0));
}

#[test]
fn labels() {
    assert_eq!(Pos::toDesc(1, 5), "A5");
    assert_eq!(Pos::toDesc(8, 8), "H8");
    assert_eq!(Pos::toDesc(4, 10), "D10");
    assert_eq!(Pos::toDesc(9, -12), " -12");
    assert_eq!(Pos::toDesc(3, 0), "C0");
    assert_eq!(Pos::toDesc(2, i32::MIN), "B-2147483648");
}

#[test]
fn typed_moves() {
    let cs = |s: &str| s.chars().collect::<Vec<char>>();
    assert_eq!(Pos::fromDesc(&cs("A1")), Some(Pos { x: 1, y: 1 }));
    assert_eq!(Pos::fromDesc(&cs("H8")), Some(Pos { x: 8, y: 8 }));
    assert_eq!(Pos::fromDesc(&cs("D3XYZ")), Some(Pos { x: 4, y: 3 }));
    assert_eq!(Pos::fromDesc(&cs("I1")), None);
    assert_eq!(Pos::fromDesc(&cs("A9")), None);
    assert_eq!(Pos::fromDesc(&cs("A0")), None);
    assert_eq!(Pos::fromDesc(&cs("A")), None);
    assert_eq!(Pos::fromDesc(&cs("")), None);
    assert_eq!(Pos::fromDesc(&cs("1A")), None);
}

#[test]
fn weights() {
    let b = Board::new();
    assert_eq!(b.getCoef(1, 1), 12);
    assert_eq!(b.getCoef(8, 1), 12);
    assert_eq!(b.getCoef(1, 8), 12);
    assert_eq!(b.getCoef(8, 8), 12);
    assert_eq!(b.getCoef(2, 1), -4);
    assert_eq!(b.getCoef(1, 2), -4);
    assert_eq!(b.getCoef(2, 2), -4);
    assert_eq!(b.getCoef(7, 7), -4);
    assert_eq!(b.getCoef(8, 7), -4);
    assert_eq!(b.getCoef(7, 8), -4);
    assert_eq!(b.getCoef(3, 1), 1);
    assert_eq!(b.getCoef(3, 3), 1);
    assert_eq!(b.getCoef(4, 5), 1);
    assert_eq!(b.getCoef(0, 0), 0);
    assert_eq!(b.getCoef(9, 4), 0);
}

#[test]
fn weight_table_totals() {
    let b = Board::new();
    let mut corners = 0;
    let mut near = 0;
    let mut plain = 0;
    for y in 1..=8 {
        for x in 1..=8 {
            match b.getCoef(x, y) {
                12 => corners += 1,
                -4 => near += 1,
                1 => plain += 1,
                _ => panic!("unexpected weight"),
            }
        }
    }
    assert_eq!((corners, near, plain), (4, 12, 48));
}

#[test]
fn new_board_is_empty() {
    let b = Board::new();
    for y in 1..=8 {
        for x in 1..=8 {
            assert_eq!(b.getPiece(x, y), Some(&Piece::Space));
        }
    }
    assert_eq!(b.getCount(), Count { nWhitePieces: 0, nBlackPieces: 0 });
}

#[test]
fn get_piece_off_board() {
    let b = start();
    assert_eq!(b.getPiece(0, 4), None);
    assert_eq!(b.getPiece(4, 9), None);
    assert_eq!(b.getPiece(i32::MIN, 1), None);
}

#[test]
fn standard_opening() {
    let b = start();
    assert_eq!(b.getPiece(4, 4), Some(&Piece::White));
    assert_eq!(b.getPiece(5, 5), Some(&Piece::White));
    assert_eq!(b.getPiece(4, 5), Some(&Piece::Black));
    assert_eq!(b.getPiece(5, 4), Some(&Piece::Black));
    assert_eq!(b.getPiece(3, 3), Some(&Piece::Space));
    assert_eq!(b.getCount(), Count { nWhitePieces: 2, nBlackPieces: 2 });
}

#[test]
fn set_piece_writes_one_cell() {
    let mut b = Board::new();
    b.setPiece(2, 7, Piece::Black);
    assert_eq!(b.getPiece(2, 7), Some(&Piece::Black));
    assert_eq!(b.getPiece(7, 2), Some(&Piece::Space));
    assert_eq!(b.getCount(), Count { nWhitePieces: 0, nBlackPieces: 1 });
}

#[test]
fn set_piece_off_board_changes_nothing() {
    let mut b = start();
    let before = b;
    b.setPiece(0, 0, Piece::Black);
    b.setPiece(9, 3, Piece::White);
    b.setPiece(3, -2, Piece::White);
    assert_eq!(b, before);
}

#[test]
fn count_by_side() {
    let mut b = Board::new();
    b.setPiece(1, 1, Piece::White);
    b.setPiece(8, 8, Piece::White);
    b.setPiece(3, 6, Piece::White);
    b.setPiece(2, 2, Piece::Black);
    assert_eq!(b.getCount(), Count { nWhitePieces: 3, nBlackPieces: 1 });
}

fn board_text(rows: &[&str]) -> Vec<Vec<char>> {
    let mut lines: Vec<Vec<char>> = Vec::new();
    lines.push("   A B C D E F G H".chars().collect());
    lines.push(" -----------------".chars().collect());
    for (i, r) in rows.iter().enumerate() {
        let line = format!("{}|{}|{}", i + 1, r, i + 1);
        lines.push(line.chars().collect());
    }
    lines
}

#[test]
fn load_reads_the_grid() {
    let rows = [
        "\u{25CF}\u{30FB}\u{30FB}\u{30FB}\u{30FB}\u{30FB}\u{30FB}\u{25CB}",
        "\u{30FB}\u{30FB}\u{30FB}\u{30FB}\u{30FB}\u{30FB}\u{30FB}\u{30FB}",
        "\u{30FB}\u{30FB}\u{30FB}\u{30FB}\u{30FB}\u{30FB}\u{30FB}\u{30FB}",
        "\u{30FB}\u{30FB}\u{30FB}\u{25CF}\u{25CB}\u{30FB}\u{30FB}\u{30FB}",
        "\u{30FB}\u{30FB}\u{30FB}\u{25CB}\u{25CF}\u{30FB}\u{30FB}\u{30FB}",
        "\u{30FB}\u{30FB}\u{30FB}\u{30FB}\u{30FB}\u{30FB}\u{30FB}\u{30FB}",
        "\u{30FB}\u{30FB}\u{30FB}\u{30FB}\u{30FB}\u{30FB}\u{30FB}\u{30FB}",
        "\u{30FB}\u{30FB}\u{30FB}\u{30FB}\u{30FB}\u{30FB}\u{30FB}\u{25CF}",
    ];
    let mut b = start();
    b.setPiece(3, 3, Piece::Black);
    assert!(b.load(&board_text(&rows)));
    assert_eq!(b.getPiece(1, 1), Some(&Piece::White));
    assert_eq!(b.getPiece(8, 1), Some(&Piece::Black));
    assert_eq!(b.getPiece(4, 4), Some(&Piece::White));
    assert_eq!(b.getPiece(5, 4), Some(&Piece::Black));
    assert_eq!(b.getPiece(4, 5), Some(&Piece::Black));
    assert_eq!(b.getPiece(5, 5), Some(&Piece::White));
    assert_eq!(b.getPiece(8, 8), Some(&Piece::White));
    assert_eq!(b.getPiece(3, 3), Some(&Piece::Space));
    assert_eq!(b.getCount(), Count { nWhitePieces: 4, nBlackPieces: 3 });
}

#[test]
fn load_refuses_a_short_text() {
    let rows = ["\u{25CF}\u{25CF}"; 8];
    let mut b = start();
    let before = b;
    assert!(!b.load(&board_text(&rows)));
    assert_eq!(b, before);
    let mut few = board_text(&["\u{25CF}\u{25CF}\u{25CF}\u{25CF}\u{25CF}\u{25CF}\u{25CF}\u{25CF}"; 8]);
    few.truncate(9);
    assert!(!b.load(&few));
    assert_eq!(b, before);
}
