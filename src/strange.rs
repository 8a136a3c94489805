pub mod search;

use vstd::prelude::*;

use crate::flop::{convert_board, converted_position, request_is_valid};
use crate::spectre::search::deepening_result;
use crate::models::{Engine, EngineInfo, Request, SearchResult};
use crate::strange::search::{get_best_move, SearchRequest};

verus! {

/// The engine that deepens along the principal variation of the previous depth.
pub struct Strange;

impl Strange {
    pub fn new() -> Self {
        Strange {}
    }
}

/// The deepest the engine searches in play.
pub const STRANGE_MAX_DEPTH: usize = 20;

impl Engine for Strange {
    fn get_info(&self) -> EngineInfo {
        EngineInfo { name: "strange".to_owned(), eval_range: (-46, 46) }
    }

    fn get_search_result(&self, request: Request) -> SearchResult {
        strange_search(request)
    }
}

/// The engine's answer to a request: iterative deepening along the principal
/// variation, to `STRANGE_MAX_DEPTH` plies, of the request's compact position, with
/// the time left on the clock (the search takes the time manager's share of it); no
/// move when the request does not hold a valid position.
pub fn strange_search(request: Request) -> (r: SearchResult)
    ensures
        !request_is_valid(request) ==> r.mv is None && r.eval is None && r.pv is None,
        request_is_valid(request) ==> deepening_result(
            converted_position(request),
            STRANGE_MAX_DEPTH,
            Some(request.time_left),
            r,
        ),
{
    match convert_board(&request) {
        Some(position) => get_best_move(
            SearchRequest {
                position,
                max_depth: STRANGE_MAX_DEPTH,
                time_left: Some(request.time_left),
                debug: false,
            },
        ),
        None => SearchResult { mv: None, eval: None, pv: None, depth_searched: None, time_spent: None },
    }
}

} // verus!
