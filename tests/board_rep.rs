use santorini_engines::flop::board_rep::{Board, Move, MoveError};
use santorini_engines::helpers::squares::{A1, A2, A3, A5, B1, B3, B4, B5, C1, C2, C3, C4, C5, D1, D2, D3, D4, D5, E1, E2, E3, E4, E5};
use santorini_engines::helpers::turn::{U, W};

const TEST_BOARD_1: Board = Board {
    blocks: [0, 0, 0, 0, 0,
             0, 1, 0, 0, 0,
             0, 4, 0, 2, 0,
             0, 0, 0, 0, 0,
             0, 0, 1, 0, 2],
    workers: [C4, D4, B3, C3],
    turn: W,
};
const TEST_BOARD_2: Board = Board {
    blocks: [0, 0, 0, 0, 0,
             0, 0, 0, 0, 0,
             0, 0, 0, 0, 0,
             0, 0, 0, 0, 0,
             0, 0, 0, 0, 0],
    workers: [A1, E5, A5, E1],
    turn: U,
};
const TEST_BOARD_3: Board = Board {
    blocks: [0, 0, 0, 0, 0,
             0, 0, 0, 0, 0,
             0, 0, 0, 2, 3,
             0, 0, 0, 0, 0,
             0, 0, 0, 0, 0],
    workers: [C4, D4, B3, C3],
    turn: W,
};
#[test]
fn worker_not_found() {
    let board = TEST_BOARD_1;

    let mv = Move { from: E5, to: D5, build: D1 };
    assert_eq!(board.move_is_legal(mv), Err(MoveError::WorkerNotFound));
}
#[test]
fn invalid_to_square() {
    let board = TEST_BOARD_1;

    let mv = Move { from: D4, to: 25, build: D4 };
    assert_eq!(board.move_is_legal(mv), Err(MoveError::InvalidToSquare));
}
#[test]
fn invalid_build_square() {
    let board = TEST_BOARD_1;

    let mv = Move { from: D4, to: D5, build: 25 };
    assert_eq!(board.move_is_legal(mv), Err(MoveError::InvalidBuildSquare));
}
#[test]
fn to_square_far_away() {
    let board = TEST_BOARD_1;

    let mv = Move { from: D4, to: A1, build: A2 };
    assert_eq!(board.move_is_legal(mv), Err(MoveError::ToSquareInaccessible));
}
#[test]
fn build_square_far_away() {
    let board = TEST_BOARD_1;

    let mv = Move { from: D4, to: D5, build: A2 };
    assert_eq!(board.move_is_legal(mv), Err(MoveError::BuildSquareInaccessible));
}
#[test]
fn to_square_occupied() {
    let board = TEST_BOARD_1;

    let mv = Move { from: D4, to: C3, build: D3 };
    assert_eq!(board.move_is_legal(mv), Err(MoveError::OccupiedToSquare));
}
#[test]
fn build_square_occupied() {
    let board = TEST_BOARD_1;

    let mv = Move { from: D4, to: D3, build: C3 };
    assert_eq!(board.move_is_legal(mv), Err(MoveError::OccupiedBuildSquare));
}
#[test]
fn move_to_self() {
    let board = TEST_BOARD_1;

    let mv = Move { from: D4, to: D4, build: D3 };
    assert_eq!(board.move_is_legal(mv), Err(MoveError::OccupiedToSquare));
}
#[test]
fn build_in_previous_square() {
    let board = TEST_BOARD_1;

    let mv = Move { from: D4, to: D5, build: D4 };
    assert_eq!(board.move_is_legal(mv), Ok(()));
}
#[test]
fn build_in_new_square() {
    let board = TEST_BOARD_1;

    let mv = Move { from: D4, to: D5, build: D5 };
    assert_eq!(board.move_is_legal(mv), Err(MoveError::OccupiedBuildSquare));
}
#[test]
fn height_difference() {
    let board = TEST_BOARD_1;

    let mv = Move { from: D4, to: E5, build: E4 };
    assert_eq!(board.move_is_legal(mv), Err(MoveError::HeightDifferenceHigh));
}
#[test]
fn wrong_color() {
    let board = TEST_BOARD_1;

    let mv = Move { from: B3, to: A3, build: A2 };
    assert_eq!(board.move_is_legal(mv), Err(MoveError::WorkerOfWrongColor));
}
#[test]
fn wrong_color_2() {
    let board = TEST_BOARD_2;

    let mv = Move { from: A1, to: A2, build: A3 };
    assert_eq!(board.move_is_legal(mv), Err(MoveError::WorkerOfWrongColor));
}
#[test]
fn wrong_build_on_win() {
    let board = TEST_BOARD_3;
    let mv = Move { from: C4, to: C5, build: D5 };
    assert_eq!(board.move_is_legal(mv), Err(MoveError::InvalidBuildOnWin));
}
#[test]
fn normal_move() {
    let board = TEST_BOARD_1;

    let mv = Move { from: D4, to: D5, build: E4 };
    assert_eq!(board.move_is_legal(mv), Ok(()));
}
#[test]
fn diagonal_move() {
    let board = TEST_BOARD_1;

    let mv = Move { from: D4, to: C5, build: B5 };
    assert_eq!(board.move_is_legal(mv), Ok(()));
}
#[test]
fn climbing_move() {
    let board = TEST_BOARD_1;

    let mv = Move { from: D4, to: E3, build: E2 };
    assert_eq!(board.move_is_legal(mv), Ok(()));
}
#[test]
fn jumping_move() {
    let board = TEST_BOARD_1;

    let mv = Move { from: C4, to: C5, build: B5 };
    assert_eq!(board.move_is_legal(mv), Ok(()));
}

#[test]
fn opening_position() {
    let board = Board {
        blocks: [0, 0, 0, 0, 0,
                 0, 0, 0, 0, 0,
                 0, 0, 0, 0, 0,
                 0, 0, 0, 0, 0,
                 0, 0, 0, 0, 0],
        workers: [B3, C3, C2, C4],
        turn: W,
    };
    let len_moves = board.generate_moves().len();
    assert_eq!(len_moves, 59);
}
#[test]
fn trapped_worker() {
    let board = Board {
        blocks: [0, 0, 0, 2, 0,
                 0, 0, 0, 0, 3,
                 0, 0, 0, 0, 0,
                 0, 0, 0, 0, 0,
                 0, 0, 0, 0, 0],
        workers: [A5, C3, B3, B4],
        turn: W,
    };
    let len_moves = board.generate_moves().len();
    assert_eq!(len_moves, 44);
}
#[test]
fn winning_move() {
    let board = Board {
        blocks: [0, 0, 0, 0, 0,
                 0, 3, 0, 0, 0,
                 0, 2, 0, 0, 0,
                 0, 0, 0, 0, 0,
                 0, 0, 0, 0, 0],
        workers: [C2, C3, B3, B4],
        turn: W,
    };
    let len_moves = board.generate_moves().len();
    assert_eq!(len_moves, 58 );
}
#[test]
fn domed() {
    let board = Board {
        blocks: [0, 0, 0, 0, 0,
                 0, 0, 0, 0, 0,
                 4, 4, 0, 0, 0,
                 0, 0, 0, 0, 0,
                 0, 0, 0, 0, 0],
        workers: [A1, E1, D2, E2],
        turn: W,
    };
    let len_moves = board.generate_moves().len();
    assert_eq!(len_moves, 15);
}
#[test]
fn multiple_heights() {
    let board = Board {
        blocks: [0, 0, 0, 0, 0,
                 0, 0, 2, 0, 0,
                 0, 1, 2, 1, 0,
                 0, 0, 3, 0, 0,
                 0, 0, 0, 0, 0],
        workers: [C2, C4, B3, A3],
        turn: W,
    };
    let len_moves = board.generate_moves().len();
    assert_eq!(len_moves, 70);
}
#[test]
fn zero_moves() {
    let board = Board {
        blocks: [1, 0, 0, 0, 0,
                 1, 3, 0, 0, 0,
                 4, 0, 0, 0, 0,
                 0, 0, 0, 0, 0,
                 0, 0, 0, 0, 0],
        workers: [A1, B1, A2, C2],
        turn: W,
    };
    let len_moves = board.generate_moves().len();
    assert_eq!(len_moves, 0);
}
#[test]
fn make_move() {
    let mut board = Board {
        blocks: [0, 0, 0, 0, 0,
                 0, 0, 0, 0, 0,
                 0, 0, 0, 0, 0,
                 0, 0, 0, 0, 0,
                 0, 0, 0, 0, 0],
        workers: [C3, C4, B3, D3],
        turn: W,
    };
    let mv = Move{from: C3, to:C2, build:C1};
    board.make_move(mv);
    let board_2 =
    Board {
        blocks: [0, 0, 0, 0, 0,
                 0, 0, 0, 0, 0,
                 1, 0, 0, 0, 0,
                 0, 0, 0, 0, 0,
                 0, 0, 0, 0, 0],
        workers: [C2, C4, B3, D3],
        turn: U,
    };
    assert_eq!(board, board_2);
}
#[test]
fn undo_move() {
    let mut board = Board {
        blocks: [0, 0, 0, 0, 0,
                 0, 0, 0, 0, 0,
                 0, 0, 0, 0, 0,
                 0, 0, 0, 0, 0,
                 0, 0, 0, 0, 0],
        workers: [C3, C4, B3, D3],
        turn: W,
    };
    let mv = Move{from: C3, to:C2, build:C1};
    board.make_move(mv);
    board.undo_move(mv);
    let board_2 =
    Board {
        blocks: [0, 0, 0, 0, 0,
                 0, 0, 0, 0, 0,
                 0, 0, 0, 0, 0,
                 0, 0, 0, 0, 0,
                 0, 0, 0, 0, 0],
        workers: [C3, C4, B3, D3],
        turn: W,
    };
    assert_eq!(board, board_2);
}

