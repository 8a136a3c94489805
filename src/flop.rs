pub mod board_rep;
pub mod eval;
pub mod search;
pub mod time_management;

use vstd::prelude::*;

use crate::flop::board_rep::{Board, Move, Position};
use crate::flop::search::{
    converts, get_best_move, lemma_last_best_index_bounds, root_search_result, root_values, SearchRequest,
};
use crate::flop::time_management::EXPECTED_MOVES_LEFT;
use crate::flop::time_management::get_time;
use crate::models::{Engine, EngineInfo, Request, SearchResult, Square, Turn, Worker};
use crate::models;

verus! {

/// `mv` as the players write it: the build is left out when the move wins.
pub fn convert_move(board: &Board, internal_move: Move) -> (r: models::Move)
    requires
        internal_move.from < 25,
        internal_move.to < 25,
        internal_move.build < 25,
    ensures
        converts(board@, internal_move, r),
{
    let at = if board.blocks[internal_move.to] == 3 {
        None
    } else {
        Some(Square::from_index(internal_move.build).unwrap())
    };
    models::Move {
        from: Square::from_index(internal_move.from).unwrap(),
        to: Square::from_index(internal_move.to).unwrap(),
        at,
    }
}

/// The cells among the first `n` that hold a worker of `turn`, in increasing order.
pub open spec fn cells_of(workers: Seq<Option<Worker>>, turn: Turn, n: int) -> Seq<usize>
    decreases n,
{
    if n <= 0 {
        seq![]
    } else if workers[n - 1] == Some(Worker { turn }) {
        cells_of(workers, turn, n - 1).push((n - 1) as usize)
    } else {
        cells_of(workers, turn, n - 1)
    }
}

/// The request holds two workers per player, none of them on a dome.
pub open spec fn request_is_valid(request: Request) -> bool {
    let first = cells_of(request.workers@, Turn::P1, 25);
    let second = cells_of(request.workers@, Turn::P2, 25);
    &&& first.len() == 2
    &&& second.len() == 2
    &&& forall|i: int| 0 <= i < 25 && #[trigger] request.workers@[i] is Some ==> request.blocks@[i].level() < 4
}

/// The compact position of a request: its heights, the first player's workers in
/// slots 0 and 1 and the second player's in slots 2 and 3, each pair in cell order.
pub open spec fn converted_position(request: Request) -> Position {
    Position {
        blocks: request.blocks@.map_values(|b: models::Blocks| b.level() as u8),
        workers: cells_of(request.workers@, Turn::P1, 25) + cells_of(request.workers@, Turn::P2, 25),
        turn: request.turn.index_of() as u8,
    }
}

proof fn lemma_cells_of_bounds(workers: Seq<Option<Worker>>, turn: Turn, n: int)
    requires
        0 <= n <= 25,
    ensures
        cells_of(workers, turn, n).len() <= n,
        forall|i: int| 0 <= i < cells_of(workers, turn, n).len() ==> #[trigger] cells_of(workers, turn, n)[i] < n,
        forall|i: int| 0 <= i < cells_of(workers, turn, n).len() ==> workers[#[trigger] cells_of(workers, turn, n)[i] as int]
            == Some(Worker { turn }),
        forall|i: int, j: int| 0 <= i < j < cells_of(workers, turn, n).len() ==>
            cells_of(workers, turn, n)[i] < cells_of(workers, turn, n)[j],
    decreases n,
{
    if n > 0 {
        lemma_cells_of_bounds(workers, turn, n - 1);
        let prev = cells_of(workers, turn, n - 1);
        if workers[n - 1] == Some(Worker { turn }) {
            let cur = prev.push((n - 1) as usize);
            assert(cells_of(workers, turn, n) == cur);
            assert forall|i: int| 0 <= i < cur.len() implies #[trigger] cur[i] < n && workers[cur[i] as int] == Some(Worker { turn }) by {
                if i < prev.len() {
                    assert(cur[i] == prev[i]);
                }
            }
            assert forall|i: int, j: int| 0 <= i < j < cur.len() implies cur[i] < cur[j] by {
                assert(cur[i] == prev[i]);
                if j < prev.len() {
                    assert(cur[j] == prev[j]);
                }
            }
        }
    }
}

/// The compact position of a request, or `None` when the request does not hold two
/// workers per player off the domes.
pub fn convert_board(request: &Request) -> (r: Option<Board>)
    ensures
        r is Some <==> request_is_valid(*request),
        r matches Some(b) ==> b@ == converted_position(*request) && b@.playable(),
{
    let mut workers: [usize; 4] = [0; 4];
    let mut index1: usize = 0;
    let mut index2: usize = 0;
    let mut on_dome = false;
    let mut square: usize = 0;
    while square < 25
        invariant
            square <= 25,
            index1 == cells_of(request.workers@, Turn::P1, square as int).len() || index1 > 2,
            index2 == cells_of(request.workers@, Turn::P2, square as int).len() || index2 > 2,
            index1 <= 3,
            index2 <= 3,
            index1 <= 2 ==> forall|i: int| 0 <= i < index1 ==> workers@[i] == cells_of(request.workers@, Turn::P1, square as int)[i],
            index2 <= 2 ==> forall|i: int| 0 <= i < index2 ==> workers@[2 + i] == cells_of(request.workers@, Turn::P2, square as int)[i],
            index1 > 2 ==> cells_of(request.workers@, Turn::P1, square as int).len() > 2,
            index2 > 2 ==> cells_of(request.workers@, Turn::P2, square as int).len() > 2,
            on_dome == exists|i: int| 0 <= i < square && #[trigger] request.workers@[i] is Some && request.blocks@[i].level() >= 4,
        decreases 25 - square,
    {
        proof {
            lemma_cells_of_bounds(request.workers@, Turn::P1, square as int);
            lemma_cells_of_bounds(request.workers@, Turn::P2, square as int);
        }
        if let Some(Worker { turn }) = request.workers[square] {
            if request.blocks[square].height() >= 4 {
                on_dome = true;
            }
            match turn {
                Turn::P1 => {
                    if index1 < 2 {
                        workers[index1] = square;
                    }
                    if index1 < 3 {
                        index1 += 1;
                    }
                },
                Turn::P2 => {
                    if index2 < 2 {
                        workers[2 + index2] = square;
                    }
                    if index2 < 3 {
                        index2 += 1;
                    }
                },
            }
        }
        square += 1;
    }
    proof {
        lemma_cells_of_bounds(request.workers@, Turn::P1, 25);
        lemma_cells_of_bounds(request.workers@, Turn::P2, 25);
    }
    if index1 != 2 || index2 != 2 || on_dome {
        return None;
    }
    let mut blocks: [u8; 25] = [0; 25];
    let mut i: usize = 0;
    while i < 25
        invariant
            i <= 25,
            forall|k: int| 0 <= k < i ==> blocks@[k] == request.blocks@[k].level() as u8,
        decreases 25 - i,
    {
        blocks[i] = request.blocks[i].height() as u8;
        i += 1;
    }
    let board = Board { blocks, workers, turn: request.turn.to_index() as u8 };
    proof {
        let p = converted_position(*request);
        assert(board@.blocks =~= p.blocks);
        assert(board@.workers =~= p.workers);
    }
    Some(board)
}

/// The engine that scores each root move with alpha-beta, deepening while time lasts.
pub struct Flop;

impl Flop {
    pub fn new() -> Self {
        Flop {}
    }
}

/// The deepest the engine searches in play.
pub const FLOP_MAX_DEPTH: usize = 20;

impl Engine for Flop {
    fn get_info(&self) -> EngineInfo {
        EngineInfo { name: "flop".to_owned(), eval_range: (-46, 46) }
    }

    fn get_search_result(&self, request: Request) -> (r: SearchResult) {
        let r = flop_search(request);
        proof {
            if request_is_valid(request) {
                let p = converted_position(request);
                if p.legal_moves().len() > 0 {
                    let d = r.depth_searched->0 as nat;
                    lemma_last_best_index_bounds(root_values(p, d));
                    let m = p.legal_moves()[crate::flop::search::last_best_index(root_values(p, d))];
                    assert(p.legal_moves().contains(m));
                }
            }
        }
        r
    }
}

/// The engine's answer to a request: the root search, to `FLOP_MAX_DEPTH` plies, of
/// the request's compact position, within the time manager's share of the clock; no
/// move when the request does not hold a valid position.
pub fn flop_search(request: Request) -> (r: SearchResult)
    ensures
        !request_is_valid(request) ==> r.mv is None && r.eval is None && r.pv is None,
        request_is_valid(request) ==> root_search_result(
            converted_position(request),
            FLOP_MAX_DEPTH,
            Some(request.time_left / EXPECTED_MOVES_LEFT),
            r,
        ),
{
    match convert_board(&request) {
        Some(position) => {
            let thinking_time = get_time(request.time_left);
            get_best_move(
                SearchRequest {
                    position,
                    max_depth: FLOP_MAX_DEPTH,
                    time_left: Some(thinking_time),
                    debug: false,
                },
            )
        },
        None => SearchResult { mv: None, eval: None, pv: None, depth_searched: None, time_spent: None },
    }
}

} // verus!
