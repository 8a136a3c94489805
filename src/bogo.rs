use rand::seq::SliceRandom;
use vstd::prelude::*;

use crate::flop::board_rep::{Board, Move};
use crate::flop::convert_board;
use crate::flop::convert_move;
use crate::flop::search::{converts, lemma_legal_moves_all_legal};
use crate::models;
use crate::models::{answers_legally, Engine, EngineInfo, Request, SearchResult};

verus! {

/// Relies on rand's `SliceRandom::choose`: one element of the slice, drawn at random,
/// or `None` when the slice is empty.
#[verifier::external_body]
fn choose_move(moves: &Vec<Move>) -> (r: Option<Move>)
    ensures
        r is None <==> moves@.len() == 0,
        r matches Some(m) ==> moves@.contains(m),
{
    moves.choose(&mut rand::thread_rng()).copied()
}

/// A legal move of the position, drawn at random, as the players write it; `None` when
/// there is no legal move.
pub fn random_move(board: &Board) -> (r: Option<models::Move>)
    requires
        board@.wf(),
    ensures
        r is None <==> board@.legal_moves().len() == 0,
        r matches Some(ext) ==> exists|m: Move|
            #[trigger] board@.legal_moves().contains(m) && converts(board@, m, ext),
{
    let moves = board.generate_moves();
    proof {
        lemma_legal_moves_all_legal(board@);
    }
    match choose_move(&moves) {
        Some(m) => {
            let ext = convert_move(board, m);
            proof {
                assert(board@.legal_moves().contains(m));
            }
            Some(ext)
        },
        None => None,
    }
}

/// The engine that plays a legal move drawn at random.
pub struct Bogo;

pub fn new() -> Bogo {
    Bogo {}
}

impl Engine for Bogo {
    fn get_info(&self) -> EngineInfo {
        EngineInfo { name: "bogo".to_owned(), eval_range: (0, 0) }
    }

    fn get_search_result(&self, request: Request) -> SearchResult {
        bogo_search(request)
    }
}

/// The engine's answer to a request: a legal move of the request's compact position
/// drawn at random, and nothing else; no move when there is none or when the request
/// does not hold a valid position.
pub fn bogo_search(request: Request) -> (r: SearchResult)
    ensures
        answers_legally(request, r),
        r.eval is None,
        r.pv is None,
        r.depth_searched is None,
        r.time_spent is None,
{
    let mv = match convert_board(&request) {
        Some(board) => random_move(&board),
        None => None,
    };
    SearchResult { mv, eval: None, pv: None, depth_searched: None, time_spent: None }
}

} // verus!
