use santorini_engines::bogo::random_move;
use santorini_engines::flop::board_rep::{Board, Move};
use santorini_engines::flop::search::{alpha_beta_first_call, alpha_beta_prunning, get_best_move, negamax, SearchRequest};
use santorini_engines::helpers::squares::{A1, A2, A4, A5, B1, B2, B3, C2, C3, C4, D1, D2, D5, E5};
use santorini_engines::helpers::turn::{U, W};
use santorini_engines::{get_engine, get_engine_names, Engine, EngineKind, Square, Turn};
use santorini_engines::{spectre, strange};

fn fixtures() -> Vec<Board> {
    vec![
        Board {
            blocks: [0, 0, 0, 0, 0, 0, 3, 0, 0, 0, 0, 2, 0, 0, 0, 0, 0, 0, 0, 0, 0, 0, 0, 0, 0],
            workers: [C3, C2, C4, B3],
            turn: W,
        },
        Board {
            blocks: [0, 0, 0, 0, 0, 0, 0, 0, 2, 2, 0, 0, 0, 0, 0, 0, 0, 0, 2, 1, 0, 0, 0, 3, 0],
            workers: [C3, A4, A5, E5],
            turn: W,
        },
        Board {
            blocks: [0, 0, 0, 0, 0, 0, 3, 0, 0, 0, 0, 2, 0, 0, 0, 0, 0, 0, 0, 0, 0, 0, 0, 0, 0],
            workers: [D1, E5, C2, D2],
            turn: W,
        },
        Board {
            blocks: [0, 0, 0, 0, 0, 0, 0, 1, 0, 0, 0, 0, 2, 0, 0, 0, 0, 2, 3, 0, 0, 0, 0, 0, 0],
            workers: [D5, E5, B3, C2],
            turn: U,
        },
    ]
}



fn search(board: Board, depth: usize) -> (Option<santorini_engines::Move>, Option<isize>) {
    let r = get_best_move(SearchRequest { position: board, max_depth: depth, time_left: None, debug: false });
    (r.mv, r.eval)
}

#[test]
fn alphabeta_equals_negamax() {
    for board in fixtures() {
        for depth in 0..3 {
            let mut a = board;
            let mut b = board;
            let plain = negamax(&mut a, depth);
            let pruned = alpha_beta_first_call(&mut b, depth);
            assert_eq!(plain, pruned);
            assert_eq!(a, board);
            assert_eq!(b, board);
        }
    }
}

#[test]
fn narrow_window_gives_a_bound() {
    for board in fixtures() {
        let mut a = board;
        let exact = negamax(&mut a, 2);
        let mut b = board;
        let r = alpha_beta_prunning(&mut b, 2, exact, exact + 1);
        assert!(r <= exact);
        let r = alpha_beta_prunning(&mut b, 2, exact - 1, exact);
        assert!(r >= exact);
        assert_eq!(b, board);
    }
}

#[test]
fn immediate_win_scores_big() {
    let mut board = fixtures()[0];
    assert_eq!(negamax(&mut board, 1), 10000);
    assert_eq!(search(board, 1).1, Some(10000));
    assert_eq!(search(board, 2).1, Some(10001));
}

#[test]
fn no_move_loses() {
    let board = Board {
        blocks: [1, 0, 0, 0, 0, 1, 3, 0, 0, 0, 4, 0, 0, 0, 0, 0, 0, 0, 0, 0, 0, 0, 0, 0, 0],
        workers: [A1, B1, A2, C2],
        turn: W,
    };
    let mut b = board;
    assert_eq!(negamax(&mut b, 2), -10002);
    assert_eq!(search(board, 2), (None, None));
    assert!(random_move(&board).is_none());
}

#[test]
fn table_searches_agree_with_flop() {
    for board in fixtures() {
        for depth in 1..4 {
            let (_, value) = search(board, depth);
            let full = spectre::search::get_best_move(spectre::search::SearchRequest {
                position: board,
                max_depth: depth,
                time_left: None,
                debug: false,
            });
            assert_eq!(full.eval, value);
            assert_eq!(full.depth_searched, Some(depth));
            let ordered = spectre::search::get_move(spectre::search::SearchRequest {
                position: board,
                max_depth: depth,
                time_left: None,
                debug: false,
            });
            assert_eq!(ordered.eval, value);
            let pv = strange::search::get_best_move(strange::search::SearchRequest {
                position: board,
                max_depth: depth,
                time_left: None,
                debug: false,
            });
            assert_eq!(pv.eval, value);
        }
    }
}

#[test]
fn table_searches_find_the_win() {
    let board = fixtures()[0];
    let expected = santorini_engines::Move { from: Square::C2, to: Square::B2, at: None };
    let full = spectre::search::get_best_move(spectre::search::SearchRequest { position: board, max_depth: 1, time_left: None, debug: false });
    assert_eq!(full.mv, Some(expected));
    let pv = strange::search::get_best_move(strange::search::SearchRequest { position: board, max_depth: 2, time_left: None, debug: false });
    assert_eq!(pv.mv, Some(expected));
}

#[test]
fn random_move_is_legal() {
    for board in fixtures() {
        let mv = random_move(&board).unwrap();
        let inner = Move {
            from: mv.from.to_index(),
            to: mv.to.to_index(),
            build: mv.at.map(|a| a.to_index()).unwrap_or(mv.from.to_index()),
        };
        assert_eq!(board.move_is_legal(inner), Ok(()));
    }
}

#[test]
fn engines_by_name() {
    assert_eq!(get_engine_names(), vec!["bogo", "flop"]);
    assert_eq!(get_engine("flop"), Some(EngineKind::Flop));
    assert_eq!(get_engine("bogo"), Some(EngineKind::Bogo));
    assert_eq!(get_engine("strange"), None);
    assert_eq!(get_engine("spectre"), None);
    assert_eq!(EngineKind::Flop.get_info().name, "flop");
}

#[test]
fn engines_play_the_opening() {
    let board = santorini_engines::Board::new([Square::B3, Square::C2], [Square::C4, Square::D3]);
    for kind in [EngineKind::Bogo, EngineKind::Flop] {
        let request = board.get_request(15);
        let mv = kind.get_move(request).unwrap();
        assert!(board.move_is_valid(&mv));
        assert_eq!(*board.get_turn(), Turn::P1);
    }
    let mv = santorini_engines::strange::Strange::new().get_move(board.get_request(15)).unwrap();
    assert!(board.move_is_valid(&mv));
}

#[test]
fn mod_t1() {
    let mut workers = [None; 25];
    workers[Square::C2.to_index()] = Some(santorini_engines::Worker { turn: Turn::P1 });
    workers[Square::C3.to_index()] = Some(santorini_engines::Worker { turn: Turn::P1 });
    workers[Square::C4.to_index()] = Some(santorini_engines::Worker { turn: Turn::P2 });
    workers[Square::C5.to_index()] = Some(santorini_engines::Worker { turn: Turn::P2 });
    let total_time = std::time::Duration::from_secs(60);
    let flop = santorini_engines::Flop::new();
    let mv = flop.get_move(santorini_engines::Request {
        blocks: [santorini_engines::Blocks::B0; 25],
        workers,
        turn: Turn::P2,
        time_left: total_time.as_nanos() as u64,
    });
    println!("{:?}", mv);
    assert!(mv.is_some());
}

#[test]
fn evaluation() {
    let board = Board {
        blocks: [1, 4, 0, 3, 2,
                 3, 0, 0, 2, 3,
                 4, 0, 0, 0, 2,
                 0, 0, 4, 0, 0,
                 2, 0, 1, 1, 0],
        workers: [C3, C2, B2, D2],
        turn: W,
    };
    let depth = 6;
    let best_move = Move { from: 12, to: 18, build: 19 };
    let mv = spectre::search::get_best_move(spectre::search::SearchRequest {
        position: board,
        max_depth: depth,
        time_left: None,
        debug: false,
    })
    .mv
    .unwrap();
    let found = Move {
        from: mv.from.to_index(),
        to: mv.to.to_index(),
        build: mv.at.map(|a| a.to_index()).unwrap_or(mv.from.to_index()),
    };
    assert_eq!(found, best_move);
}
