use std::collections::HashMap;

use santorini_engines::clock::Deadline;
use santorini_engines::flop::board_rep::Board;
use santorini_engines::flop::convert_move;
use santorini_engines::flop::search::negamax;
use santorini_engines::flop::search::alpha_beta_prunning;
use santorini_engines::spectre::search::{alphabeta_full_tt, alphabeta_tt, get_move_full_tt, Bound, SearchRequest, TTEntry};
use santorini_engines::strange::search::alphabeta_id;

fn boards() -> Vec<Board> {
    vec![
        Board {
            blocks: [0, 0, 0, 0, 0, 0, 3, 0, 0, 0, 0, 2, 0, 0, 0, 0, 0, 0, 0, 0, 0, 0, 0, 0, 0],
            workers: [12, 11, 13, 7],
            turn: 0,
        },
        Board {
            blocks: [0, 0, 0, 0, 0, 0, 0, 0, 0, 0, 0, 0, 0, 0, 0, 0, 0, 0, 0, 0, 0, 0, 0, 0, 0],
            workers: [7, 12, 11, 13],
            turn: 0,
        },
        Board {
            blocks: [1, 4, 0, 3, 2, 3, 0, 0, 2, 3, 4, 0, 0, 0, 2, 0, 0, 4, 0, 0, 2, 0, 1, 1, 0],
            workers: [12, 11, 6, 16],
            turn: 1,
        },
        Board {
            blocks: [0, 0, 0, 0, 0, 0, 0, 0, 0, 0, 4, 4, 0, 0, 0, 0, 0, 0, 0, 0, 0, 0, 0, 0, 0],
            workers: [0, 20, 16, 21],
            turn: 0,
        },
    ]
}

#[test]
fn undo_restores_every_legal_move() {
    for board in boards() {
        for mv in board.generate_moves() {
            let mut played = board;
            played.make_move(mv);
            assert_ne!(played.turn, board.turn);
            played.undo_move(mv);
            assert_eq!(played, board);
        }
    }
}

#[test]
fn generated_moves_stay_in_bounds() {
    for board in boards() {
        for mv in board.generate_moves() {
            assert!(!board.workers.contains(&mv.to));
            assert_eq!(board.move_is_legal(mv), Ok(()));
            let mut played = board;
            played.make_move(mv);
            assert!(played.blocks.iter().all(|&h| h <= 4));
            assert!(played.is_playable());
        }
    }
}

#[test]
fn winning_moves_build_nothing() {
    let board = boards()[0];
    let wins: Vec<_> = board.generate_moves().into_iter().filter(|mv| board.blocks[mv.to] == 3).collect();
    assert_eq!(wins.len(), 1);
    for mv in wins {
        assert_eq!(mv.build, mv.from);
        assert_eq!(convert_move(&board, mv).at, None);
        let mut played = board;
        played.make_move(mv);
        assert_eq!(played.blocks, board.blocks);
    }
}

#[test]
fn table_searches_match_negamax_on_any_window() {
    for board in boards() {
        for depth in 1..3usize {
            let mut b = board;
            let exact = negamax(&mut b, depth);
            for (alpha, beta) in [(-1000000, 1000000), (exact - 1, exact + 1), (exact, exact + 5), (exact - 5, exact)] {
                let mut deadline = Deadline::new(None);
                let mut ordering: HashMap<u64, (Board, santorini_engines::flop::board_rep::Move)> = HashMap::new();
                let mut full = HashMap::new();
                for _ in 0..2 {
                    let (v, _) = alphabeta_tt(&mut b, depth, 0, alpha, beta, &mut deadline, &mut ordering).unwrap();
                    assert!(if v <= alpha { exact <= v } else if v >= beta { exact >= v } else { v == exact });
                    let (v, _) = alphabeta_full_tt(&mut b, depth, 0, alpha, beta, &mut deadline, &mut full).unwrap();
                    assert!(if v <= alpha { exact <= v } else if v >= beta { exact >= v } else { v == exact });
                    let (v, _) = alphabeta_id(&mut b, depth, 0, alpha, beta, &Vec::new(), &mut deadline, true).unwrap();
                    assert!(if v <= alpha { exact <= v } else if v >= beta { exact >= v } else { v == exact });
                    assert_eq!(b, board);
                }
            }
        }
    }
}

#[test]
fn exhausted_budget_still_moves() {
    let board = boards()[1];
    let r = get_move_full_tt(SearchRequest { position: board, max_depth: 5, time_left: Some(0), debug: false });
    let mv = r.mv.unwrap();
    assert!(r.depth_searched.unwrap() <= 5);
    let inner = santorini_engines::flop::board_rep::Move {
        from: mv.from.to_index(),
        to: mv.to.to_index(),
        build: mv.at.map(|a| a.to_index()).unwrap_or(mv.from.to_index()),
    };
    assert_eq!(board.move_is_legal(inner), Ok(()));
}

#[test]
fn any_window_is_accepted() {
    for board in boards() {
        let mut b = board;
        let exact = negamax(&mut b, 2);
        assert_eq!(alpha_beta_prunning(&mut b, 2, isize::MIN + 1, isize::MAX), exact);
        let low = alpha_beta_prunning(&mut b, 2, isize::MIN + 1, -5_000_000);
        assert!(exact >= low);
        let high = alpha_beta_prunning(&mut b, 2, 5_000_000, isize::MAX);
        assert!(exact <= high);
        let mut deadline = Deadline::new(None);
        let mut full: HashMap<u64, TTEntry> = HashMap::new();
        let (v, _) = alphabeta_full_tt(&mut b, 2, 0, isize::MIN + 1, isize::MAX, &mut deadline, &mut full).unwrap();
        assert_eq!(v, exact);
        let (v, line) = alphabeta_id(&mut b, 2, 0, isize::MIN + 1, isize::MAX, &Vec::new(), &mut deadline, true).unwrap();
        assert_eq!(v, exact);
        assert!(line.len() <= 2);
        assert_eq!(b, board);
    }
}

#[test]
fn full_table_files_the_result() {
    for board in boards() {
        let mut b = board;
        let exact = negamax(&mut b, 2);
        let mut deadline = Deadline::new(None);
        let mut full: HashMap<u64, TTEntry> = HashMap::new();
        let (v, _) = alphabeta_full_tt(&mut b, 2, 0, -1_000_000, 1_000_000, &mut deadline, &mut full).unwrap();
        assert_eq!(v, exact);
        let entry = full[&board.position_key()];
        assert_eq!(entry.board, board);
        assert_eq!(entry.depth, 2);
        assert_eq!(entry.value, exact);
        assert_eq!(entry.flag, Bound::Exact);
        assert_eq!(board.move_is_legal(entry.mv), Ok(()));
        let (again, _) = alphabeta_full_tt(&mut b, 2, 0, exact + 1, exact + 2, &mut deadline, &mut full).unwrap();
        assert_eq!(again, exact);
        let (low, _) = alphabeta_full_tt(&mut b, 1, 0, exact + 10_000, exact + 10_001, &mut deadline, &mut full).unwrap();
        assert_eq!(full[&board.position_key()].flag, Bound::Upper);
        assert_eq!(full[&board.position_key()].value, low);
    }
}

#[test]
fn principal_variation_is_playable() {
    for board in boards() {
        let mut b = board;
        let mut deadline = Deadline::new(None);
        let (_, line) = alphabeta_id(&mut b, 3, 0, -1_000_000, 1_000_000, &Vec::new(), &mut deadline, true).unwrap();
        assert!(!line.is_empty() && line.len() <= 3);
        let mut replay = board;
        for mv in line {
            assert_eq!(replay.move_is_legal(mv), Ok(()));
            replay.make_move(mv);
        }
    }
}

#[test]
fn win_is_generated_once() {
    let board = boards()[0];
    let moves = board.generate_moves();
    let to_top: Vec<_> = moves.iter().filter(|mv| mv.from == 11 && mv.to == 6).collect();
    assert_eq!(to_top.len(), 1);
    assert_eq!(to_top[0].build, 11);
}
