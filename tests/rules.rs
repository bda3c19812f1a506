use othello::board::{Board, Piece, Pos};
use othello::rules::SearchResult1;

fn start() -> Board {
    let mut b = Board::new();
    b.init();
    b
}

fn positions(rs: &[SearchResult1]) -> Vec<(i32, i32)> {
    rs.iter().map(|r| (r.pos.x, r.pos.y)).collect()
}

#[test]
fn opening_placements_for_white() {
    let b = start();
    let rs = b.searchPos(&Piece::White);
    assert_eq!(positions(&rs), vec![(5, 3), (6, 4), (3, 5), (4, 6)]);
    for r in &rs {
        assert_eq!(r.ntake, 1);
        assert_eq!(r.score, 2);
        assert_eq!(r.dirs.len(), 1);
    }
    assert_eq!(rs[0].dirs, vec![4]);
    assert_eq!(rs[1].dirs, vec![6]);
    assert_eq!(rs[2].dirs, vec![2]);
    assert_eq!(rs[3].dirs, vec![0]);
}

#[test]
fn opening_placements_for_black() {
    let b = start();
    let rs = b.searchPos(&Piece::Black);
    assert_eq!(positions(&rs), vec![(4, 3), (3, 4), (6, 5), (5, 6)]);
    for r in &rs {
        assert_eq!(r.ntake, 1);
    }
}

#[test]
fn empty_side_has_no_placement() {
    let b = start();
    assert!(b.searchPos(&Piece::Space).is_empty());
    assert!(Board::new().searchPos(&Piece::White).is_empty());
}

#[test]
fn occupied_cell_is_illegal() {
    let b = start();
    assert!(b.searchPosSub(&Piece::White, &Pos { x: 4, y: 5 }).is_none());
    assert!(b.searchPosSub(&Piece::Black, &Pos { x: 4, y: 4 }).is_none());
}

#[test]
fn off_board_cell_is_illegal() {
    let b = start();
    assert!(b.searchPosSub(&Piece::White, &Pos { x: 0, y: 5 }).is_none());
    assert!(b.searchPosSub(&Piece::White, &Pos { x: i32::MAX, y: i32::MIN }).is_none());
    assert!(b.put(&Piece::White, &Pos { x: 9, y: 9 }).is_none());
}

#[test]
fn run_to_the_edge_captures_nothing() {
    // a black stone on the edge with nothing of white's beyond it
    let mut b = Board::new();
    b.setPiece(1, 1, Piece::Black);
    assert!(b.searchPosSub(&Piece::White, &Pos { x: 2, y: 1 }).is_none());
    assert!(b.put(&Piece::White, &Pos { x: 2, y: 1 }).is_none());
    // a longer line running off the board
    let mut b = Board::new();
    b.setPiece(2, 4, Piece::Black);
    b.setPiece(1, 4, Piece::Black);
    assert!(b.searchPosSub(&Piece::White, &Pos { x: 3, y: 4 }).is_none());
}

#[test]
fn run_to_an_empty_cell_captures_nothing() {
    let mut b = Board::new();
    b.setPiece(4, 4, Piece::Black);
    b.setPiece(5, 4, Piece::Black);
    b.setPiece(7, 4, Piece::White);
    assert!(b.searchPosSub(&Piece::White, &Pos { x: 3, y: 4 }).is_none());
    b.setPiece(6, 4, Piece::White);
    let r = b.searchPosSub(&Piece::White, &Pos { x: 3, y: 4 }).unwrap();
    assert_eq!(r.ntake, 2);
    assert_eq!(r.dirs, vec![2]);
}

#[test]
fn adjacent_own_stone_captures_nothing() {
    let mut b = Board::new();
    b.setPiece(4, 4, Piece::White);
    assert!(b.searchPosSub(&Piece::White, &Pos { x: 3, y: 4 }).is_none());
}

#[test]
fn several_rays_add_up() {
    // white at (1,1) captures towards the east (two stones) and the south-east (one)
    let mut b = Board::new();
    b.setPiece(2, 1, Piece::Black);
    b.setPiece(3, 1, Piece::Black);
    b.setPiece(4, 1, Piece::White);
    b.setPiece(2, 2, Piece::Black);
    b.setPiece(3, 3, Piece::White);
    let r = b.searchPosSub(&Piece::White, &Pos { x: 1, y: 1 }).unwrap();
    assert_eq!(r.pos, Pos { x: 1, y: 1 });
    assert_eq!(r.ntake, 3);
    assert_eq!(r.dirs, vec![2, 3]);
    // weights: (2,1) -4, (3,1) 1, (2,2) -4, and the corner itself 12
    assert_eq!(r.score, -4 + 1 - 4 + 12);
}

#[test]
fn resolve_twice_gives_the_same_answer() {
    let b = start();
    for y in 0..=9 {
        for x in 0..=9 {
            let p = Pos { x, y };
            assert_eq!(b.searchPosSub(&Piece::White, &p), b.searchPosSub(&Piece::White, &p));
        }
    }
    let copy = b;
    let _ = b.getPiece(3, 3);
    let _ = b.searchPosSub(&Piece::Black, &Pos { x: 4, y: 3 });
    assert_eq!(b, copy);
}

#[test]
fn put_turns_the_captured_stones() {
    let b = start();
    let o = b.put(&Piece::White, &Pos { x: 5, y: 3 }).unwrap();
    assert_eq!(o.pos, Pos { x: 5, y: 3 });
    assert_eq!(o.piece, Piece::White);
    assert_eq!(o.ntake, 1);
    assert_eq!(o.score, 2);
    assert_eq!(o.capturedPieceLocs, vec![Pos { x: 5, y: 4 }]);
    assert_eq!(o.board.getPiece(5, 3), Some(&Piece::White));
    assert_eq!(o.board.getPiece(5, 4), Some(&Piece::White));
    assert_eq!(o.board.getPiece(4, 5), Some(&Piece::Black));
    // the board it came from is untouched
    assert_eq!(b.getPiece(5, 3), Some(&Piece::Space));
    assert_eq!(b.getPiece(5, 4), Some(&Piece::Black));
}

#[test]
fn put_is_capture_consistent() {
    let mut b = Board::new();
    b.setPiece(2, 1, Piece::Black);
    b.setPiece(3, 1, Piece::Black);
    b.setPiece(4, 1, Piece::White);
    b.setPiece(2, 2, Piece::Black);
    b.setPiece(3, 3, Piece::White);
    b.setPiece(1, 3, Piece::Black);
    let o = b.put(&Piece::White, &Pos { x: 1, y: 1 }).unwrap();
    assert_eq!(
        o.capturedPieceLocs,
        vec![Pos { x: 2, y: 1 }, Pos { x: 3, y: 1 }, Pos { x: 2, y: 2 }]
    );
    for p in &o.capturedPieceLocs {
        assert_eq!(b.getPiece(p.x, p.y), Some(&Piece::Black));
        assert_eq!(o.board.getPiece(p.x, p.y), Some(&Piece::White));
    }
    for y in 1..=8 {
        for x in 1..=8 {
            let p = Pos { x, y };
            if !o.capturedPieceLocs.contains(&p) && p != (Pos { x: 1, y: 1 }) {
                assert_eq!(o.board.getPiece(x, y), b.getPiece(x, y));
            }
        }
    }
    assert_eq!(o.board.getPiece(1, 3), Some(&Piece::Black));
}

#[test]
fn put_adds_one_stone() {
    let b = start();
    for r in b.searchPos(&Piece::Black) {
        let before = b.getCount();
        let o = b.put(&Piece::Black, &r.pos).unwrap();
        let after = o.board.getCount();
        assert_eq!(
            after.nWhitePieces + after.nBlackPieces,
            before.nWhitePieces + before.nBlackPieces + 1
        );
        assert_eq!(after.nBlackPieces, before.nBlackPieces + 1 + o.ntake);
        assert_eq!(after.nWhitePieces, before.nWhitePieces - o.ntake);
        assert_eq!(o.capturedPieceLocs.len() as i32, o.ntake);
    }
}

#[test]
fn put_counts_after_a_long_capture() {
    let mut b = Board::new();
    for x in 2..=7 {
        b.setPiece(x, 5, Piece::White);
    }
    b.setPiece(8, 5, Piece::Black);
    let o = b.put(&Piece::Black, &Pos { x: 1, y: 5 }).unwrap();
    assert_eq!(o.ntake, 6);
    assert_eq!(o.board.getCount().nBlackPieces, 8);
    assert_eq!(o.board.getCount().nWhitePieces, 0);
    // weights: (2,5)..(7,5) are plain, (1,5) too
    assert_eq!(o.score, 7);
}

#[test]
fn next_boards_scale_by_mobility() {
    let b = start();
    let next = b.genNextBoards(&Piece::White);
    assert_eq!(next.len(), 4);
    let expect = [(5, 3), (6, 4), (3, 5), (4, 6)];
    for (o, (x, y)) in next.iter().zip(expect.iter()) {
        assert_eq!((o.pos.x, o.pos.y), (*x, *y));
        assert_eq!(o.piece, Piece::White);
        assert_eq!(o.ntake, 1);
        assert_eq!(o.score, 2 * 4);
        assert_eq!(o.board.getPiece(*x, *y), Some(&Piece::White));
    }
}

#[test]
fn next_boards_empty_when_no_placement() {
    let mut b = Board::new();
    b.setPiece(4, 4, Piece::White);
    assert!(b.genNextBoards(&Piece::White).is_empty());
    assert!(b.genNextBoards(&Piece::Black).is_empty());
}

#[test]
fn next_boards_with_a_negative_score() {
    // the only placement for black is next to a corner
    let mut b = Board::new();
    b.setPiece(3, 1, Piece::White);
    b.setPiece(4, 1, Piece::Black);
    let next = b.genNextBoards(&Piece::Black);
    assert_eq!(next.len(), 1);
    assert_eq!(next[0].pos, Pos { x: 2, y: 1 });
    // (3,1) weighs 1, the placement cell (2,1) weighs -4; one placement
    assert_eq!(next[0].score, -3);
}
