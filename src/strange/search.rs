use vstd::prelude::*;

use crate::clock::Deadline;
use crate::flop::board_rep::{
    index_of_move, lemma_apply_playable, lemma_undo_inverts_make, Board, Move, Position,
};
use crate::flop::convert_move;
use crate::flop::eval::eval;
use crate::flop::search::{
    clamp_window, lemma_clamped_window, window_ceiling, window_floor,
    get_color, lemma_best_value_at_least, lemma_best_value_attained, lemma_best_value_upper,
    lemma_full_window_is_negamax, lemma_legal_moves_all_legal, lemma_negamax_bounds, move_value,
    negamax_value, within_window, BIG_ENOUGH_VALUE, LOWEST_VALUE, MAX_SEARCH_DEPTH,
};
use crate::flop::time_management::get_time;
use crate::models::SearchResult;
use crate::spectre::search::{root_choice, search_ok};

verus! {

/// A search on a compact position: to `max_depth` plies at most, within the share of
/// `time_left` nanoseconds that the time manager allows, when it is given.
pub struct SearchRequest {
    pub position: Board,
    pub max_depth: usize,
    pub time_left: Option<u64>,
    pub debug: bool,
}

/// The first move of a line, if it has one.
pub open spec fn head(line: Seq<Move>) -> Option<Move> {
    if line.len() > 0 {
        Some(line[0])
    } else {
        None
    }
}

/// `line` can be played move after move from `p`, each move legal where it is played.
pub open spec fn is_line(p: Position, line: Seq<Move>) -> bool
    decreases line.len(),
{
    line.len() == 0 || (p.is_legal(line[0]) && is_line(p.apply(line[0]), line.drop_first()))
}

/// `mv` followed by a line from the position it leads to is a line.
proof fn lemma_line_prepend(p: Position, mv: Move, line: Seq<Move>)
    requires
        p.is_legal(mv),
        is_line(p.apply(mv), line),
    ensures
        is_line(p, seq![mv] + line),
{
    assert((seq![mv] + line).drop_first() =~= line);
    assert((seq![mv] + line)[0] == mv);
}

/// The value of `mv` for the side that plays it, with the line that follows it.
fn id_child(
    node: &mut Board,
    mv: Move,
    depth: usize,
    ply: usize,
    alpha: isize,
    beta: isize,
    last_pv: &Vec<Move>,
    deadline: &mut Deadline,
    in_pv: bool,
) -> (r: Option<(isize, Vec<Move>)>)
    requires
        old(node)@.playable(),
        old(node)@.is_legal(mv),
        ply < depth <= MAX_SEARCH_DEPTH,
        LOWEST_VALUE <= alpha < beta <= -LOWEST_VALUE,
    ensures
        final(node)@ == old(node)@,
        final(deadline).budget() == old(deadline).budget(),
        old(deadline).budget() is None ==> r is Some,
        r matches Some((c, _)) ==> {
            &&& within_window(c as int, move_value(old(node)@, mv, (depth - ply) as nat), alpha as int, beta as int)
            &&& -BIG_ENOUGH_VALUE - (depth - ply) < c < BIG_ENOUGH_VALUE + (depth - ply)
        },
        r matches Some((_, line)) ==> is_line(old(node)@.apply(mv), line@) && line@.len() < depth - ply,
    decreases depth - ply, 0int,
{
    if node.blocks[mv.to] == 3 {
        return Some((BIG_ENOUGH_VALUE + (depth - ply) as isize - 1, Vec::new()));
    }
    let ghost p = node@;
    proof {
        lemma_apply_playable(p, mv);
        lemma_undo_inverts_make(p, mv);
    }
    node.make_move(mv);
    let result = alphabeta_id(node, depth, ply + 1, -beta, -alpha, last_pv, deadline, in_pv);
    node.undo_move(mv);
    match result {
        Some((v, line)) => Some((-v, line)),
        None => None,
    }
}

/// `mv` followed by `line`.
fn prepend(mv: Move, line: Vec<Move>) -> (r: Vec<Move>)
    ensures
        r@ == seq![mv] + line@,
{
    let mut r: Vec<Move> = Vec::new();
    r.push(mv);
    let mut i: usize = 0;
    while i < line.len()
        invariant
            i <= line@.len(),
            r@ == seq![mv] + line@.take(i as int),
        decreases line.len() - i,
    {
        r.push(line[i]);
        proof {
            assert(line@.take(i + 1) =~= line@.take(i as int).push(line@[i as int]));
            assert(r@ =~= seq![mv] + line@.take(i + 1));
        }
        i += 1;
    }
    proof {
        assert(line@.take(i as int) =~= line@);
    }
    r
}

/// Alpha-beta that, along the principal variation of the previous depth, searches that
/// line's move first. It returns the value and the principal variation found, whose
/// first move is the best move whenever the value is exact. `None` means the time
/// budget ran out; the board is restored either way.
pub fn alphabeta_id(
    node: &mut Board,
    depth: usize,
    ply: usize,
    alpha: isize,
    beta: isize,
    last_pv: &Vec<Move>,
    deadline: &mut Deadline,
    in_pv: bool,
) -> (r: Option<(isize, Vec<Move>)>)
    requires
        old(node)@.playable(),
        ply <= depth <= MAX_SEARCH_DEPTH,
        alpha < beta,
    ensures
        final(node)@ == old(node)@,
        final(deadline).budget() == old(deadline).budget(),
        old(deadline).budget() is None ==> r is Some,
        r matches Some((v, line)) ==> search_ok(old(node)@, (depth - ply) as nat, alpha as int, beta as int, v as int, head(line@)),
        r matches Some((_, line)) ==> is_line(old(node)@, line@) && line@.len() <= depth - ply,
    decreases depth - ply, 1int,
{
    let (lo, hi) = clamp_window(alpha, beta);
    if deadline.expired() {
        return None;
    }
    let ghost p = node@;
    let remaining = depth - ply;
    let ghost d = remaining as nat;
    proof {
        lemma_negamax_bounds(p, d);
    }
    if remaining == 0 {
        return Some((get_color(node) * eval(node), Vec::new()));
    }
    let moves = node.generate_moves();
    if moves.len() == 0 {
        return Some((-BIG_ENOUGH_VALUE - remaining as isize, Vec::new()));
    }
    proof {
        lemma_legal_moves_all_legal(p);
    }
    let first: Option<usize> = if depth == 1 || ply + 1 == depth || !in_pv || ply >= last_pv.len() {
        None
    } else {
        index_of_move(&moves, last_pv[ply])
    };
    let ghost fst: int = match first {
        Some(f) => f as int,
        None => -1,
    };
    let mut value = LOWEST_VALUE;
    let mut raised = lo;
    let mut pv: Vec<Move> = Vec::new();
    let ghost mut best_j: int = -1;
    if let Some(f) = first {
        let mv = moves[f];
        proof {
            assert(p.is_legal(moves@[f as int]));
            lemma_best_value_at_least(p, moves@, d, f as int);
        }
        let (new_value, line) = match id_child(node, mv, depth, ply, raised, hi, last_pv, deadline, true) {
            Some(found) => found,
            None => {
                return None;
            },
        };
        value = new_value;
        proof {
            lemma_line_prepend(p, mv, line@);
        }
        pv = prepend(mv, line);
        proof {
            best_j = f as int;
        }
        if value > raised {
            raised = value;
        }
        if raised >= hi {
            proof {
                lemma_clamped_window(value as int, negamax_value(p, d), alpha as int, beta as int);
            }
            return Some((value, pv));
        }
    }
    let mut i: usize = 0;
    while i < moves.len()
        invariant
            node@ == p,
            p == old(node)@,
            p.playable(),
            1 <= d <= MAX_SEARCH_DEPTH,
            d == depth - ply,
            ply < depth <= MAX_SEARCH_DEPTH,
            moves@ == p.legal_moves(),
            moves@.len() > 0,
            forall|k: int| 0 <= k < moves@.len() ==> p.is_legal(#[trigger] moves@[k]),
            negamax_value(p, d) == crate::flop::search::best_value(p, moves@, d),
            -1 <= fst < moves@.len(),
            first is Some ==> fst == first->0,
            first is None ==> fst == -1,
            i <= moves@.len(),
            LOWEST_VALUE <= lo < hi <= -LOWEST_VALUE,
            lo == window_floor(alpha as int),
            hi == window_ceiling(beta as int),
            deadline.budget() == old(deadline).budget(),
            is_line(p, pv@),
            pv@.len() <= d,
            raised == if value > lo { value } else { lo },
            raised < hi,
            LOWEST_VALUE <= value,
            value == LOWEST_VALUE || -BIG_ENOUGH_VALUE - d < value < BIG_ENOUGH_VALUE + d,
            forall|j: int| 0 <= j < moves@.len() && (j == fst || j < i) ==> move_value(p, #[trigger] moves@[j], d) <= value,
            value > lo ==> {
                &&& 0 <= best_j < moves@.len()
                &&& (best_j == fst || best_j < i)
                &&& head(pv@) == Some(moves@[best_j])
                &&& move_value(p, moves@[best_j], d) == value
            },
        decreases moves.len() - i,
    {
        if first != Some(i) {
            let mv = moves[i];
            proof {
                assert(p.is_legal(moves@[i as int]));
                lemma_best_value_at_least(p, moves@, d, i as int);
            }
            let (new_value, line) = match id_child(node, mv, depth, ply, raised, hi, last_pv, deadline, false) {
                Some(found) => found,
                None => {
                    return None;
                },
            };
            if new_value > value {
                value = new_value;
                proof {
            lemma_line_prepend(p, mv, line@);
        }
        pv = prepend(mv, line);
                proof {
                    best_j = i as int;
                }
            }
            if value > raised {
                raised = value;
            }
            if raised >= hi {
                proof {
                lemma_clamped_window(value as int, negamax_value(p, d), alpha as int, beta as int);
            }
            return Some((value, pv));
            }
        }
        i += 1;
    }
    proof {
        if value > lo {
            lemma_best_value_attained(p, moves@, d, value as int, best_j);
        } else {
            lemma_best_value_upper(p, moves@, d, value as int);
        }
        lemma_clamped_window(value as int, negamax_value(p, d), alpha as int, beta as int);
    }
    Some((value, pv))
}

/// Iterative deepening that orders each depth's search by the previous depth's
/// principal variation. The budget is the time manager's share of the clock. A depth
/// cut short by the clock is discarded: the move and value come from the last depth
/// searched in full.
pub fn get_move(request: SearchRequest) -> (r: SearchResult)
    requires
        request.position@.playable(),
        1 <= request.max_depth <= MAX_SEARCH_DEPTH,
    ensures
        r.pv is None,
        request.position@.legal_moves().len() == 0 ==> r.mv is None && r.eval is None,
        request.position@.legal_moves().len() > 0 ==> exists|m: Move|
            #[trigger] root_choice(request.position@, m, r, request.max_depth, request.time_left),
{
    let budget = match request.time_left {
        Some(t) => Some(get_time(t)),
        None => None,
    };
    let mut deadline = Deadline::new(budget);
    let mut board = request.position;
    let ghost p = board@;
    let moves = board.generate_moves();
    if moves.len() == 0 {
        return SearchResult { mv: None, eval: None, pv: None, depth_searched: Some(0), time_spent: Some(deadline.elapsed()) };
    }
    proof {
        lemma_legal_moves_all_legal(p);
        assert(p.legal_moves().contains(moves@[0]));
    }
    let mut pv: Vec<Move> = Vec::new();
    let mut best_move = moves[0];
    let mut best_score: Option<isize> = None;
    let mut depth_done: usize = 0;
    let mut depth: usize = 1;
    let mut stopped = false;
    while depth <= request.max_depth && !stopped
        invariant
            board@ == p,
            p == request.position@,
            p.playable(),
            1 <= request.max_depth <= MAX_SEARCH_DEPTH,
            1 <= depth <= request.max_depth + 1,
            deadline.budget() == budget,
            request.time_left is None ==> budget is None,
            budget is None ==> !stopped && depth_done == depth - 1 && (depth > 1 ==> best_score is Some),
            p.legal_moves().contains(best_move),
            best_score matches Some(v) ==> {
                &&& 1 <= depth_done <= request.max_depth
                &&& v == negamax_value(p, depth_done as nat)
                &&& move_value(p, best_move, depth_done as nat) == v
            },
        decreases request.max_depth + 1 - depth,
    {
        match alphabeta_id(&mut board, depth, 0, LOWEST_VALUE, -LOWEST_VALUE, &pv, &mut deadline, true) {
            Some((v, line)) => {
                proof {
                    lemma_full_window_is_negamax(p, depth as nat, v as int);
                    lemma_negamax_bounds(p, depth as nat);
                }
                best_score = Some(v);
                best_move = line[0];
                depth_done = depth;
                pv = line;
            },
            None => {
                stopped = true;
            },
        }
        depth += 1;
    }
    let r = SearchResult {
        mv: Some(convert_move(&board, best_move)),
        eval: best_score,
        pv: None,
        depth_searched: Some(depth_done),
        time_spent: Some(deadline.elapsed()),
    };
    proof {
        assert(root_choice(p, best_move, r, request.max_depth, request.time_left));
    }
    r
}

/// The engine's search: iterative deepening along the principal variation.
pub fn get_best_move(request: SearchRequest) -> (r: SearchResult)
    requires
        request.position@.playable(),
        1 <= request.max_depth <= MAX_SEARCH_DEPTH,
    ensures
        r.pv is None,
        request.position@.legal_moves().len() == 0 ==> r.mv is None && r.eval is None,
        request.position@.legal_moves().len() > 0 ==> exists|m: Move|
            #[trigger] root_choice(request.position@, m, r, request.max_depth, request.time_left),
{
    get_move(request)
}

} // verus!
