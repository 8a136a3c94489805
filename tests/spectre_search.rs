use santorini_engines::flop::board_rep::{Board, Move};
use santorini_engines::spectre::search::{get_best_move, SearchRequest};
use santorini_engines::helpers::squares::{A2, A4, A5, B1, B2, B3, B4, C1, C2, C3, C4, C5, D1, D2, D3, D4, D5, E2, E3, E5};
use santorini_engines::helpers::turn::{U, W};

fn get_best_move_test(board:Board, depth:usize) -> Move{
    let request = SearchRequest{
        position:board,
        max_depth: depth,
        time_left: None,
        debug: false,
    };
    let mv = get_best_move(request).mv.unwrap();
    Move {
        from: mv.from.to_index(),
        to: mv.to.to_index(),
        build: mv.at.map(|at| at.to_index()).unwrap_or(mv.from.to_index()),
    }
}

#[test]
fn spectre_m1(){
    let board = 
        Board {
            blocks: [0, 0, 0, 0, 0,
                     0, 3, 0, 0, 0,
                     0, 2, 0, 0, 0,
                     0, 0, 0, 0, 0,
                     0, 0, 0, 0, 0],
            workers: [C3, C2, C4, B3],
            turn: W,
        };
    let depth = 1;
    let best_move = Move {from: C2, to:B2, build: C2};
    assert_eq!(get_best_move_test(board, depth), best_move);
}
#[test]
fn spectre_m1_5(){
    let board = 
        Board {
            blocks: [0, 0, 0, 0, 0,
                     0, 0, 0, 2, 2,
                     0, 0, 0, 0, 0,
                     0, 0, 0, 2, 1,
                     0, 0, 0, 3, 0],
            workers: [C3, A4, A5, E5],
            turn: W,
        };
    let depth = 2;
    let best_move = Move {from: C3, to:C4, build: D5};
    assert_eq!(get_best_move_test(board, depth), best_move);
}
#[test]
fn spectre_prevent_m1(){
    let board = 
        Board {
            blocks: [0, 0, 0, 0, 0,
                     0, 3, 0, 0, 0,
                     0, 2, 0, 0, 0,
                     0, 0, 0, 0, 0,
                     0, 0, 0, 0, 0],
            workers: [D1, E5, C2, D2],
            turn: W,
        };
    let depth = 2;
    let best_move = Move {from: D1, to:C1, build: B2};
    assert_eq!(get_best_move_test(board, depth), best_move);
}
#[test]
fn spectre_mi2_dw(){
    let board = 
        Board {
            blocks: [0, 0, 0, 0, 0,
                     0, 0, 1, 0, 0,
                     0, 0, 2, 0, 0,
                     0, 0, 2, 3, 0,
                     0, 0, 0, 0, 0],
            workers: [B3, C2, D5, E5],
            turn: W,
        };
    let depth = 3;
    let best_move = Move {from: B3, to:C3, build: D3};
    assert_eq!(get_best_move_test(board, depth), best_move);
}

#[test]
fn spectre_mi2_dw_blue(){
    let board = 
        Board {
            blocks: [0, 0, 0, 0, 0,
                     0, 0, 1, 0, 0,
                     0, 0, 2, 0, 0,
                     0, 0, 2, 3, 0,
                     0, 0, 0, 0, 0],
            workers: [D5, E5, B3, C2],
            turn: U,
        };
    let depth = 3;
    let best_move = Move {from: B3, to:C3, build: D3};
    assert_eq!(get_best_move_test(board, depth), best_move);
}

#[test]
fn spectre_mi2_fa(){
    let board = 
        Board {
            blocks: [0, 0, 0, 0, 2,
                     0, 0, 0, 2, 2,
                     0, 0, 2, 0, 0,
                     0, 0, 0, 0, 0,
                     0, 0, 0, 0, 0],
            workers: [C3, A4, C4, B3],
            turn: W,
        };
    let depth = 3;
    let best_move = Move {from: C3, to:B4, build: A5};
    assert_eq!(get_best_move_test(board, depth), best_move);
}
#[test]
fn spectre_m2_5(){
    let board = 
        Board {
            blocks: [0, 0, 0, 0, 0,
                     0, 0, 0, 0, 0,
                     0, 0, 0, 4, 1,
                     4, 4, 0, 2, 0,
                     4, 0, 1, 3, 0],
            workers: [C5, D3, E2, D5],
            turn: W,
        };
    let depth = 4;
    let best_move = Move {from: C5, to:D4, build: E3};
    assert_eq!(get_best_move_test(board, depth), best_move);
}
#[test]
fn spectre_stalling(){
    let board = 
        Board {
            blocks: [0, 0, 0, 0, 0,
                     0, 2, 3, 0, 0,
                     0, 2, 0, 0, 0,
                     2, 3, 0, 0, 0,
                     0, 0, 0, 0, 0],
            workers: [B1, D5, A2, B2],
            turn: W,
        };
    let depth = 4;
    let best_move = Move {from: D5, to:C4, build: B3};
    assert_eq!(get_best_move_test(board, depth), best_move);
}

