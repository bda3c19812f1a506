use othello::board::{Board, Piece, Pos};
use othello::game::{getPosOnMouseClick, ComputerTurn, Game, PlayerTurn};

fn start() -> Board {
    let mut b = Board::new();
    b.init();
    b
}

#[test]
fn clicks_map_to_cells() {
    assert_eq!(getPosOnMouseClick(32, 32), Some(Pos { x: 1, y: 1 }));
    assert_eq!(getPosOnMouseClick(127, 127), Some(Pos { x: 1, y: 1 }));
    assert_eq!(getPosOnMouseClick(128, 32), Some(Pos { x: 2, y: 1 }));
    assert_eq!(getPosOnMouseClick(32 + 96 * 8 - 1, 32 + 96 * 8 - 1), Some(Pos { x: 8, y: 8 }));
    assert_eq!(getPosOnMouseClick(500, 300), Some(Pos { x: 5, y: 3 }));
}

#[test]
fn clicks_outside_the_grid() {
    assert_eq!(getPosOnMouseClick(31, 40), None);
    assert_eq!(getPosOnMouseClick(40, 31), None);
    assert_eq!(getPosOnMouseClick(32 + 96 * 8, 40), None);
    assert_eq!(getPosOnMouseClick(40, 32 + 96 * 8), None);
    assert_eq!(getPosOnMouseClick(i32::MIN, i32::MAX), None);
}

#[test]
fn player_turn_places_a_legal_stone() {
    let mut g = Game::new(start(), Piece::Black);
    assert_eq!(g.computer, Piece::White);
    match g.playerTurn(Some(Pos { x: 4, y: 3 })) {
        PlayerTurn::Placed(o) => assert_eq!(o.capturedPieceLocs, vec![Pos { x: 4, y: 4 }]),
        _ => panic!("expected a placement"),
    }
    assert_eq!(g.board.getPiece(4, 3), Some(&Piece::Black));
    assert_eq!(g.board.getPiece(4, 4), Some(&Piece::Black));
    assert!(!g.playerPass);
}

#[test]
fn player_turn_rejects_and_waits() {
    let mut g = Game::new(start(), Piece::Black);
    let before = g.board;
    assert!(matches!(g.playerTurn(None), PlayerTurn::Waiting));
    assert!(matches!(g.playerTurn(Some(Pos { x: 1, y: 1 })), PlayerTurn::Rejected(Pos { x: 1, y: 1 })));
    assert_eq!(g.board, before);
}

#[test]
fn player_without_placement_passes() {
    let mut b = Board::new();
    b.setPiece(1, 1, Piece::White);
    let mut g = Game::new(b, Piece::Black);
    assert!(matches!(g.playerTurn(Some(Pos { x: 2, y: 1 })), PlayerTurn::Passed));
    assert!(g.playerPass);
    assert!(!g.isOver());
    assert!(matches!(g.computerTurn(3), ComputerTurn::Passed));
    assert!(g.isOver());
}

#[test]
fn computer_plays_its_best_first_step() {
    let mut g = Game::new(start(), Piece::Black);
    assert!(matches!(g.playerTurn(Some(Pos { x: 4, y: 3 })), PlayerTurn::Placed(_)));
    let expected = g.board.getBestMove(&Piece::White, 2).unwrap().path[0].pos;
    match g.computerTurn(2) {
        ComputerTurn::Placed(o) => assert_eq!(o.pos, expected),
        _ => panic!("expected a placement"),
    }
    assert_eq!(g.board.getPiece(expected.x, expected.y), Some(&Piece::White));
    assert!(!g.computerPass);
    let c = g.board.getCount();
    assert_eq!(c.nWhitePieces + c.nBlackPieces, 6);
}
