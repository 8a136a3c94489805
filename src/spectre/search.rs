use std::collections::HashMap;

use vstd::prelude::*;

use crate::clock::Deadline;
use crate::flop::convert_move;
use crate::flop::search::{
    clamp_window, lemma_clamped_window, window_ceiling, window_floor,converts, lemma_full_window_is_negamax};
use crate::models::{BenchmarkRequest, SearchResult};
use crate::flop::board_rep::{
    index_of_move, lemma_apply_playable, lemma_undo_inverts_make, position_key_of, Board, Move,
    Position,
};
use crate::flop::eval::eval;
use crate::flop::search::{
    lemma_window_narrowing,
    get_color, lemma_best_value_at_least, lemma_best_value_attained, lemma_best_value_upper,
    lemma_legal_moves_all_legal, lemma_negamax_bounds, move_value, negamax_value, within_window,
    BIG_ENOUGH_VALUE, LOWEST_VALUE, MAX_SEARCH_DEPTH,
};

verus! {

broadcast use vstd::std_specs::hash::group_hash_axioms;

/// What a search of `p` with `depth` plies left on the window (`alpha`, `beta`)
/// guarantees of its value `v` and move `best`: `v` is exact inside the window and a
/// bound outside it, and when it is exact at an inner node `best` is a legal move that
/// reaches it.
pub open spec fn search_ok(p: Position, depth: nat, alpha: int, beta: int, v: int, best: Option<Move>) -> bool {
    &&& within_window(v, negamax_value(p, depth), alpha, beta)
    &&& -BIG_ENOUGH_VALUE - depth <= v <= BIG_ENOUGH_VALUE + depth
    &&& (alpha < v < beta && depth > 0 && p.legal_moves().len() > 0) ==> (best matches Some(m)
        && p.legal_moves().contains(m) && move_value(p, m, depth) == v)
}

/// Every move of the move-ordering table is legal in the position stored with it.
pub open spec fn ordering_sound(tt: Map<u64, (Board, Move)>) -> bool {
    forall|k: u64| #[trigger] tt.contains_key(k) ==> tt[k].0@.legal_moves().contains(tt[k].1)
}

/// The value of `mv` for the side that plays it, searched with the move-ordering table.
fn tt_child(
    node: &mut Board,
    mv: Move,
    depth: usize,
    ply: usize,
    alpha: isize,
    beta: isize,
    deadline: &mut Deadline,
    tt: &mut HashMap<u64, (Board, Move)>,
) -> (r: Option<isize>)
    requires
        old(node)@.playable(),
        old(node)@.is_legal(mv),
        ply < depth <= MAX_SEARCH_DEPTH,
        LOWEST_VALUE <= alpha < beta <= -LOWEST_VALUE,
        ordering_sound(old(tt)@),
    ensures
        ordering_sound(final(tt)@),
        final(node)@ == old(node)@,
        final(deadline).budget() == old(deadline).budget(),
        old(deadline).budget() is None ==> r is Some,
        r matches Some(c) ==> {
            &&& within_window(c as int, move_value(old(node)@, mv, (depth - ply) as nat), alpha as int, beta as int)
            &&& -BIG_ENOUGH_VALUE - (depth - ply) < c < BIG_ENOUGH_VALUE + (depth - ply)
        },
    decreases depth - ply, 0int,
{
    if node.blocks[mv.to] == 3 {
        return Some(BIG_ENOUGH_VALUE + (depth - ply) as isize - 1);
    }
    let ghost p = node@;
    proof {
        lemma_apply_playable(p, mv);
        lemma_undo_inverts_make(p, mv);
    }
    node.make_move(mv);
    let result = alphabeta_tt(node, depth, ply + 1, -beta, -alpha, deadline, tt);
    node.undo_move(mv);
    match result {
        Some((v, _)) => Some(-v),
        None => None,
    }
}

/// Alpha-beta that first tries the move the table remembers as best in this position.
/// The table only orders moves: the result is that of alpha-beta whatever it holds.
/// `None` means the time budget ran out; the board is restored either way.
pub fn alphabeta_tt(
    node: &mut Board,
    depth: usize,
    ply: usize,
    alpha: isize,
    beta: isize,
    deadline: &mut Deadline,
    tt: &mut HashMap<u64, (Board, Move)>,
) -> (r: Option<(isize, Option<Move>)>)
    requires
        old(node)@.playable(),
        ply <= depth <= MAX_SEARCH_DEPTH,
        alpha < beta,
        ordering_sound(old(tt)@),
    ensures
        ordering_sound(final(tt)@),
        final(node)@ == old(node)@,
        final(deadline).budget() == old(deadline).budget(),
        old(deadline).budget() is None ==> r is Some,
        r matches Some((v, best)) ==> search_ok(old(node)@, (depth - ply) as nat, alpha as int, beta as int, v as int, best),
    decreases depth - ply, 1int,
{
    let (lo, hi) = clamp_window(alpha, beta);
    if deadline.expired() {
        return None;
    }
    let ghost p = node@;
    let remaining = depth - ply;
    proof {
        lemma_negamax_bounds(p, remaining as nat);
    }
    if remaining == 0 {
        return Some((get_color(node) * eval(node), None));
    }
    let moves = node.generate_moves();
    if moves.len() == 0 {
        return Some((-BIG_ENOUGH_VALUE - remaining as isize, None));
    }
    proof {
        lemma_legal_moves_all_legal(p);
    }
    let key = node.position_key();
    let first: Option<usize> = match tt.get(&key) {
        Some(entry) => if entry.0.same_position(node) {
            index_of_move(&moves, entry.1)
        } else {
            None
        },
        None => None,
    };
    let ghost fst: int = match first {
        Some(f) => f as int,
        None => -1,
    };
    let ghost d = remaining as nat;
    let mut value = LOWEST_VALUE;
    let mut raised = lo;
    let mut best: Option<Move> = None;
    let ghost mut best_j: int = -1;
    if let Some(f) = first {
        let mv = moves[f];
        proof {
            assert(p.is_legal(moves@[f as int]));
            lemma_best_value_at_least(p, moves@, d, f as int);
        }
        let new_value = match tt_child(node, mv, depth, ply, raised, hi, deadline, tt) {
            Some(c) => c,
            None => {
                return None;
            },
        };
        value = new_value;
        best = Some(mv);
        proof {
            best_j = f as int;
        }
        if value > raised {
            raised = value;
            proof {
                assert(p.legal_moves().contains(moves@[f as int]));
            }
            tt.insert(key, (*node, mv));
        }
        if raised >= hi {
            proof {
                lemma_clamped_window(value as int, negamax_value(p, d), alpha as int, beta as int);
            }
            return Some((value, best));
        }
    }
    let mut i: usize = 0;
    while i < moves.len()
        invariant
            node@ == p,
            p == old(node)@,
            p.playable(),
            1 <= d <= MAX_SEARCH_DEPTH,
            d == depth - ply,
            ply < depth <= MAX_SEARCH_DEPTH,
            moves@ == p.legal_moves(),
            moves@.len() > 0,
            forall|k: int| 0 <= k < moves@.len() ==> p.is_legal(#[trigger] moves@[k]),
            negamax_value(p, d) == crate::flop::search::best_value(p, moves@, d),
            -1 <= fst < moves@.len(),
            first is Some ==> fst == first->0,
            first is None ==> fst == -1,
            i <= moves@.len(),
            LOWEST_VALUE <= lo < hi <= -LOWEST_VALUE,
            lo == window_floor(alpha as int),
            hi == window_ceiling(beta as int),
            deadline.budget() == old(deadline).budget(),
            ordering_sound(tt@),
            raised == if value > lo { value } else { lo },
            raised < hi,
            LOWEST_VALUE <= value,
            value == LOWEST_VALUE || -BIG_ENOUGH_VALUE - d < value < BIG_ENOUGH_VALUE + d,
            forall|j: int| 0 <= j < moves@.len() && (j == fst || j < i) ==> move_value(p, #[trigger] moves@[j], d) <= value,
            value > lo ==> {
                &&& 0 <= best_j < moves@.len()
                &&& (best_j == fst || best_j < i)
                &&& best == Some(moves@[best_j])
                &&& move_value(p, moves@[best_j], d) == value
            },
        decreases moves.len() - i,
    {
        if first != Some(i) {
            let mv = moves[i];
            proof {
                assert(p.is_legal(moves@[i as int]));
                lemma_best_value_at_least(p, moves@, d, i as int);
            }
            let new_value = match tt_child(node, mv, depth, ply, raised, hi, deadline, tt) {
                Some(c) => c,
                None => {
                    return None;
                },
            };
            if new_value > value {
                value = new_value;
                best = Some(mv);
                proof {
                    best_j = i as int;
                }
            }
            if value > raised {
                raised = value;
                proof {
                    assert(p.legal_moves().contains(moves@[i as int]));
                }
                tt.insert(key, (*node, mv));
            }
            if raised >= hi {
                proof {
                lemma_clamped_window(value as int, negamax_value(p, d), alpha as int, beta as int);
            }
            return Some((value, best));
            }
        }
        i += 1;
    }
    proof {
        if value > lo {
            lemma_best_value_attained(p, moves@, d, value as int, best_j);
        } else {
            lemma_best_value_upper(p, moves@, d, value as int);
        }
        lemma_clamped_window(value as int, negamax_value(p, d), alpha as int, beta as int);
    }
    Some((value, best))
}

/// How a stored value relates to the true value of its position.
#[derive(Clone, Copy, Debug, PartialEq, Eq, Structural)]
pub enum Bound {
    Exact,
    Lower,
    Upper,
}

/// A search result remembered for a position: the depth it was searched to, whether
/// its value is exact or a bound, and the best move found.
#[derive(Clone, Copy, Debug)]
pub struct TTEntry {
    pub board: Board,
    pub depth: usize,
    pub flag: Bound,
    pub value: isize,
    pub mv: Move,
}

/// The entry tells the truth about its position.
pub open spec fn entry_sound(e: TTEntry) -> bool {
    let p = e.board@;
    let v = negamax_value(p, e.depth as nat);
    &&& p.playable()
    &&& 1 <= e.depth <= MAX_SEARCH_DEPTH
    &&& -BIG_ENOUGH_VALUE - e.depth <= e.value <= BIG_ENOUGH_VALUE + e.depth
    &&& p.legal_moves().contains(e.mv)
    &&& match e.flag {
        Bound::Exact => e.value == v && move_value(p, e.mv, e.depth as nat) == e.value,
        Bound::Lower => v >= e.value,
        Bound::Upper => v <= e.value,
    }
}

/// Every entry of the table tells the truth about its position.
pub open spec fn table_sound(tt: Map<u64, TTEntry>) -> bool {
    forall|k: u64| #[trigger] tt.contains_key(k) ==> entry_sound(tt[k])
}

/// The bound that a result `v` on the window (`alpha`, `beta`) is for its position.
pub open spec fn bound_rule(v: int, alpha: int, beta: int) -> Bound {
    if v <= alpha {
        Bound::Upper
    } else if v >= beta {
        Bound::Lower
    } else {
        Bound::Exact
    }
}

/// The table holds an exact value for `p` searched `depth` plies deep.
pub open spec fn exact_hit(tt: Map<u64, TTEntry>, p: Position, depth: nat) -> bool {
    let k = position_key_of(p);
    &&& tt.contains_key(k)
    &&& tt[k].board@ == p
    &&& tt[k].depth == depth
    &&& tt[k].flag == Bound::Exact
}

/// After a search of `p` to `depth` plies with result `v` on (`alpha`, `beta`), the
/// table files under `p`'s key an entry for `p` at that depth with that value, a legal
/// move, and the bound `v` is: exact when it came from an exact entry, otherwise by
/// where `v` lies against the window.
pub open spec fn stored_result(tt: Map<u64, TTEntry>, old_tt: Map<u64, TTEntry>, p: Position, depth: nat, v: int, alpha: int, beta: int) -> bool {
    let k = position_key_of(p);
    let e = tt[k];
    &&& tt.contains_key(k)
    &&& e.board@ == p
    &&& e.depth == depth
    &&& e.value == v
    &&& p.legal_moves().contains(e.mv)
    &&& e.flag == if exact_hit(old_tt, p, depth) { Bound::Exact } else { bound_rule(v, alpha, beta) }
}

/// The value of `mv` for the side that plays it, searched with the full table.
fn full_tt_child(
    node: &mut Board,
    mv: Move,
    depth: usize,
    ply: usize,
    alpha: isize,
    beta: isize,
    deadline: &mut Deadline,
    tt: &mut HashMap<u64, TTEntry>,
) -> (r: Option<isize>)
    requires
        old(node)@.playable(),
        old(node)@.is_legal(mv),
        ply < depth <= MAX_SEARCH_DEPTH,
        LOWEST_VALUE <= alpha < beta <= -LOWEST_VALUE,
        table_sound(old(tt)@),
    ensures
        final(node)@ == old(node)@,
        table_sound(final(tt)@),
        final(deadline).budget() == old(deadline).budget(),
        old(deadline).budget() is None ==> r is Some,
        r matches Some(c) ==> {
            &&& within_window(c as int, move_value(old(node)@, mv, (depth - ply) as nat), alpha as int, beta as int)
            &&& -BIG_ENOUGH_VALUE - (depth - ply) < c < BIG_ENOUGH_VALUE + (depth - ply)
        },
    decreases depth - ply, 0int,
{
    if node.blocks[mv.to] == 3 {
        return Some(BIG_ENOUGH_VALUE + (depth - ply) as isize - 1);
    }
    let ghost p = node@;
    proof {
        lemma_apply_playable(p, mv);
        lemma_undo_inverts_make(p, mv);
    }
    node.make_move(mv);
    let result = alphabeta_full_tt(node, depth, ply + 1, -beta, -alpha, deadline, tt);
    node.undo_move(mv);
    match result {
        Some((v, _)) => Some(-v),
        None => None,
    }
}

/// The bound that a result on the window (`alpha`, `beta`) is for its position.
fn bound_of(value: isize, alpha: isize, beta: isize) -> (r: Bound)
    ensures
        r == bound_rule(value as int, alpha as int, beta as int),
{
    if value <= alpha {
        Bound::Upper
    } else if value >= beta {
        Bound::Lower
    } else {
        Bound::Exact
    }
}

/// Alpha-beta with a table of exact values and bounds. An exact value stored for the
/// same position at the same depth is returned at once; a stored bound at that depth
/// narrows the window; the stored best move is searched first. Every result is stored
/// back. Entries of another depth serve only to order moves: wins and losses count by
/// their distance from the root, so a deeper entry holds the value of a different
/// search, and returning it would make the result differ from negamax at this depth.
/// `None` means the time budget ran out; the board is restored either way.
pub fn alphabeta_full_tt(
    node: &mut Board,
    depth: usize,
    ply: usize,
    alpha: isize,
    beta: isize,
    deadline: &mut Deadline,
    tt: &mut HashMap<u64, TTEntry>,
) -> (r: Option<(isize, Option<Move>)>)
    requires
        old(node)@.playable(),
        ply <= depth <= MAX_SEARCH_DEPTH,
        alpha < beta,
        table_sound(old(tt)@),
    ensures
        final(node)@ == old(node)@,
        table_sound(final(tt)@),
        final(deadline).budget() == old(deadline).budget(),
        old(deadline).budget() is None ==> r is Some,
        r matches Some((v, best)) ==> search_ok(old(node)@, (depth - ply) as nat, alpha as int, beta as int, v as int, best),
        r matches Some((v, _)) ==> (ply < depth && old(node)@.legal_moves().len() > 0) ==> stored_result(
            final(tt)@,
            old(tt)@,
            old(node)@,
            (depth - ply) as nat,
            v as int,
            alpha as int,
            beta as int,
        ),
        r matches Some((v, _)) ==> (ply < depth && old(node)@.legal_moves().len() > 0 && exact_hit(
            old(tt)@,
            old(node)@,
            (depth - ply) as nat,
        )) ==> final(tt)@ == old(tt)@ && v == old(tt)@[position_key_of(old(node)@)].value,
    decreases depth - ply, 1int,
{
    let (wa, wb) = clamp_window(alpha, beta);
    if deadline.expired() {
        return None;
    }
    let ghost p = node@;
    let remaining = depth - ply;
    let ghost d = remaining as nat;
    proof {
        lemma_negamax_bounds(p, d);
    }
    if remaining == 0 {
        return Some((get_color(node) * eval(node), None));
    }
    let moves = node.generate_moves();
    if moves.len() == 0 {
        return Some((-BIG_ENOUGH_VALUE - remaining as isize, None));
    }
    proof {
        lemma_legal_moves_all_legal(p);
    }
    let key = node.position_key();
    let stored: Option<TTEntry> = match tt.get(&key) {
        Some(entry) => if entry.board.same_position(node) {
            Some(*entry)
        } else {
            None
        },
        None => None,
    };
    let mut lo = wa;
    let mut hi = wb;
    let mut first: Option<usize> = None;
    if let Some(entry) = stored {
        proof {
            assert(tt@.contains_key(key));
            assert(entry_sound(entry));
        }
        proof {
            assert(entry == tt@[key]);
        }
        if entry.depth == remaining {
            match entry.flag {
                Bound::Exact => {
                    return Some((entry.value, Some(entry.mv)));
                },
                Bound::Lower => {
                    if entry.value - 1 > lo {
                        lo = entry.value - 1;
                    }
                },
                Bound::Upper => {
                    if entry.value + 1 < hi {
                        hi = entry.value + 1;
                    }
                },
            }
            if lo >= hi {
                return Some((entry.value, Some(entry.mv)));
            }
        }
        first = index_of_move(&moves, entry.mv);
    }
    proof {
        assert(!exact_hit(old(tt)@, p, d));
    }
    let ghost fst: int = match first {
        Some(f) => f as int,
        None => -1,
    };
    let ghost nm = negamax_value(p, d);
    let mut value = LOWEST_VALUE;
    let mut raised = lo;
    let mut best: Option<Move> = None;
    let ghost mut best_j: int = -1;
    if let Some(f) = first {
        let mv = moves[f];
        proof {
            assert(p.is_legal(moves@[f as int]));
            lemma_best_value_at_least(p, moves@, d, f as int);
        }
        let new_value = match full_tt_child(node, mv, depth, ply, raised, hi, deadline, tt) {
            Some(c) => c,
            None => {
                return None;
            },
        };
        value = new_value;
        best = Some(mv);
        proof {
            best_j = f as int;
        }
        if value > raised {
            raised = value;
        }
        if raised >= hi {
            proof {
                lemma_window_narrowing(value as int, nm, wa as int, wb as int, lo as int, hi as int);
                lemma_clamped_window(value as int, nm, alpha as int, beta as int);
            }
            let new_entry = TTEntry {
                board: *node,
                depth: remaining,
                flag: bound_of(value, wa, wb),
                value,
                mv,
            };
            tt.insert(key, new_entry);
            return Some((value, best));
        }
    }
    let mut i: usize = 0;
    while i < moves.len()
        invariant
            node@ == p,
            p == old(node)@,
            p.playable(),
            1 <= d <= MAX_SEARCH_DEPTH,
            d == remaining,
            remaining == depth - ply,
            ply < depth <= MAX_SEARCH_DEPTH,
            moves@ == p.legal_moves(),
            moves@.len() > 0,
            forall|k: int| 0 <= k < moves@.len() ==> p.is_legal(#[trigger] moves@[k]),
            nm == negamax_value(p, d),
            nm == crate::flop::search::best_value(p, moves@, d),
            -BIG_ENOUGH_VALUE - d <= nm <= BIG_ENOUGH_VALUE + d,
            -1 <= fst < moves@.len(),
            first is Some ==> fst == first->0,
            first is None ==> fst == -1,
            i <= moves@.len(),
            LOWEST_VALUE <= wa < wb <= -LOWEST_VALUE,
            wa == window_floor(alpha as int),
            wb == window_ceiling(beta as int),
            wa <= lo < hi <= wb,
            lo > wa ==> nm > lo,
            hi < wb ==> nm < hi,
            table_sound(tt@),
            deadline.budget() == old(deadline).budget(),
            key == position_key_of(p),
            !exact_hit(old(tt)@, p, d),
            raised == if value > lo { value } else { lo },
            raised < hi,
            LOWEST_VALUE <= value,
            value == LOWEST_VALUE || -BIG_ENOUGH_VALUE - d < value < BIG_ENOUGH_VALUE + d,
            value > LOWEST_VALUE ==> 0 <= best_j < moves@.len() && best == Some(moves@[best_j]),
            (i > 0 || fst >= 0) ==> value > LOWEST_VALUE,
            forall|j: int| 0 <= j < moves@.len() && (j == fst || j < i) ==> move_value(p, #[trigger] moves@[j], d) <= value,
            value > lo ==> {
                &&& 0 <= best_j < moves@.len()
                &&& (best_j == fst || best_j < i)
                &&& best == Some(moves@[best_j])
                &&& move_value(p, moves@[best_j], d) == value
            },
        decreases moves.len() - i,
    {
        if first != Some(i) {
            let mv = moves[i];
            proof {
                assert(p.is_legal(moves@[i as int]));
                lemma_best_value_at_least(p, moves@, d, i as int);
            }
            let new_value = match full_tt_child(node, mv, depth, ply, raised, hi, deadline, tt) {
                Some(c) => c,
                None => {
                    return None;
                },
            };
            if new_value > value {
                value = new_value;
                best = Some(mv);
                proof {
                    best_j = i as int;
                }
            }
            if value > raised {
                raised = value;
            }
            if raised >= hi {
                proof {
                    lemma_window_narrowing(value as int, nm, wa as int, wb as int, lo as int, hi as int);
                lemma_clamped_window(value as int, nm, alpha as int, beta as int);
                    assert(p.legal_moves().contains(moves@[best_j]));
                }
                let new_entry = TTEntry {
                    board: *node,
                    depth: remaining,
                    flag: bound_of(value, wa, wb),
                    value,
                    mv: best.unwrap(),
                };
                tt.insert(key, new_entry);
                return Some((value, best));
            }
        }
        i += 1;
    }
    proof {
        if value > lo {
            lemma_best_value_attained(p, moves@, d, value as int, best_j);
        } else {
            lemma_best_value_upper(p, moves@, d, value as int);
        }
        lemma_window_narrowing(value as int, nm, wa as int, wb as int, lo as int, hi as int);
                lemma_clamped_window(value as int, nm, alpha as int, beta as int);
        assert(p.legal_moves().contains(moves@[best_j]));
    }
    let new_entry = TTEntry {
        board: *node,
        depth: remaining,
        flag: bound_of(value, wa, wb),
        value,
        mv: best.unwrap(),
    };
    tt.insert(key, new_entry);
    Some((value, best))
}

/// A search on a compact position: to `max_depth` plies at most, within `time_left`
/// nanoseconds when it is given.
pub struct SearchRequest {
    pub position: Board,
    pub max_depth: usize,
    pub time_left: Option<u64>,
    pub debug: bool,
}

/// What an iterative-deepening search promises of its result `r` on `p`, if `m` is
/// the move it chose: a legal move, best at the last depth completed (when one was),
/// and every depth completed when there is no time limit.
pub open spec fn root_choice(p: Position, m: Move, r: SearchResult, max_depth: usize, time_left: Option<u64>) -> bool {
    &&& p.legal_moves().contains(m)
    &&& r.mv matches Some(ext)
    &&& converts(p, m, ext)
    &&& (r.eval matches Some(v) ==> {
        &&& r.depth_searched matches Some(d)
        &&& 1 <= d <= max_depth
        &&& v == negamax_value(p, d as nat)
        &&& move_value(p, m, d as nat) == v
    })
    &&& (time_left is None ==> r.eval is Some && r.depth_searched == Some(max_depth))
}

/// What an iterative-deepening search promises of its result `r` on `p`: no move when
/// there is none, otherwise a chosen move as `root_choice` describes.
pub open spec fn deepening_result(p: Position, max_depth: usize, time_left: Option<u64>, r: SearchResult) -> bool {
    &&& r.pv is None
    &&& (p.legal_moves().len() == 0 ==> r.mv is None && r.eval is None)
    &&& (p.legal_moves().len() > 0 ==> exists|m: Move| #[trigger] root_choice(p, m, r, max_depth, time_left))
}

/// Iterative deepening with the move-ordering table, kept from one depth to the next.
/// A depth cut short by the clock is discarded: the move and value come from the last
/// depth searched in full.
pub fn get_move(request: SearchRequest) -> (r: SearchResult)
    requires
        request.position@.playable(),
        1 <= request.max_depth <= MAX_SEARCH_DEPTH,
    ensures
        r.pv is None,
        request.position@.legal_moves().len() == 0 ==> r.mv is None && r.eval is None,
        request.position@.legal_moves().len() > 0 ==> exists|m: Move|
            #[trigger] root_choice(request.position@, m, r, request.max_depth, request.time_left),
{
    let mut deadline = Deadline::new(request.time_left);
    let mut board = request.position;
    let ghost p = board@;
    let moves = board.generate_moves();
    if moves.len() == 0 {
        return SearchResult { mv: None, eval: None, pv: None, depth_searched: Some(0), time_spent: Some(deadline.elapsed()) };
    }
    proof {
        lemma_legal_moves_all_legal(p);
        assert(p.legal_moves().contains(moves@[0]));
    }
    let mut tt: HashMap<u64, (Board, Move)> = HashMap::new();
    let mut best_move = moves[0];
    let mut best_score: Option<isize> = None;
    let mut depth_done: usize = 0;
    let mut depth: usize = 1;
    let mut stopped = false;
    while depth <= request.max_depth && !stopped
        invariant
            board@ == p,
            p == request.position@,
            p.playable(),
            ordering_sound(tt@),
            1 <= request.max_depth <= MAX_SEARCH_DEPTH,
            1 <= depth <= request.max_depth + 1,
            deadline.budget() == request.time_left,
            request.time_left is None ==> !stopped && depth_done == depth - 1 && (depth > 1 ==> best_score is Some),
            p.legal_moves().contains(best_move),
            best_score matches Some(v) ==> {
                &&& 1 <= depth_done <= request.max_depth
                &&& v == negamax_value(p, depth_done as nat)
                &&& move_value(p, best_move, depth_done as nat) == v
            },
        decreases request.max_depth + 1 - depth,
    {
        match alphabeta_tt(&mut board, depth, 0, LOWEST_VALUE, -LOWEST_VALUE, &mut deadline, &mut tt) {
            Some((v, m)) => {
                proof {
                    lemma_full_window_is_negamax(p, depth as nat, v as int);
                    lemma_negamax_bounds(p, depth as nat);
                }
                best_score = Some(v);
                best_move = m.unwrap();
                depth_done = depth;
            },
            None => {
                stopped = true;
            },
        }
        depth += 1;
    }
    let r = SearchResult {
        mv: Some(convert_move(&board, best_move)),
        eval: best_score,
        pv: None,
        depth_searched: Some(depth_done),
        time_spent: Some(deadline.elapsed()),
    };
    proof {
        assert(root_choice(p, best_move, r, request.max_depth, request.time_left));
    }
    r
}

/// Iterative deepening with the full table, kept from one depth to the next. A depth
/// cut short by the clock is discarded: the move and value come from the last depth
/// searched in full.
pub fn get_move_full_tt(request: SearchRequest) -> (r: SearchResult)
    requires
        request.position@.playable(),
        1 <= request.max_depth <= MAX_SEARCH_DEPTH,
    ensures
        r.pv is None,
        request.position@.legal_moves().len() == 0 ==> r.mv is None && r.eval is None,
        request.position@.legal_moves().len() > 0 ==> exists|m: Move|
            #[trigger] root_choice(request.position@, m, r, request.max_depth, request.time_left),
{
    let mut deadline = Deadline::new(request.time_left);
    let mut board = request.position;
    let ghost p = board@;
    let moves = board.generate_moves();
    if moves.len() == 0 {
        return SearchResult { mv: None, eval: None, pv: None, depth_searched: Some(0), time_spent: Some(deadline.elapsed()) };
    }
    proof {
        lemma_legal_moves_all_legal(p);
        assert(p.legal_moves().contains(moves@[0]));
    }
    let mut tt: HashMap<u64, TTEntry> = HashMap::new();
    let mut best_move = moves[0];
    let mut best_score: Option<isize> = None;
    let mut depth_done: usize = 0;
    let mut depth: usize = 1;
    let mut stopped = false;
    while depth <= request.max_depth && !stopped
        invariant
            board@ == p,
            p == request.position@,
            p.playable(),
            table_sound(tt@),
            1 <= request.max_depth <= MAX_SEARCH_DEPTH,
            1 <= depth <= request.max_depth + 1,
            deadline.budget() == request.time_left,
            request.time_left is None ==> !stopped && depth_done == depth - 1 && (depth > 1 ==> best_score is Some),
            p.legal_moves().contains(best_move),
            best_score matches Some(v) ==> {
                &&& 1 <= depth_done <= request.max_depth
                &&& v == negamax_value(p, depth_done as nat)
                &&& move_value(p, best_move, depth_done as nat) == v
            },
        decreases request.max_depth + 1 - depth,
    {
        match alphabeta_full_tt(&mut board, depth, 0, LOWEST_VALUE, -LOWEST_VALUE, &mut deadline, &mut tt) {
            Some((v, m)) => {
                proof {
                    lemma_full_window_is_negamax(p, depth as nat, v as int);
                    lemma_negamax_bounds(p, depth as nat);
                }
                best_score = Some(v);
                best_move = m.unwrap();
                depth_done = depth;
            },
            None => {
                stopped = true;
            },
        }
        depth += 1;
    }
    let r = SearchResult {
        mv: Some(convert_move(&board, best_move)),
        eval: best_score,
        pv: None,
        depth_searched: Some(depth_done),
        time_spent: Some(deadline.elapsed()),
    };
    proof {
        assert(root_choice(p, best_move, r, request.max_depth, request.time_left));
    }
    r
}

/// The engine's search: iterative deepening with the full table.
pub fn get_best_move(request: SearchRequest) -> (r: SearchResult)
    requires
        request.position@.playable(),
        1 <= request.max_depth <= MAX_SEARCH_DEPTH,
    ensures
        r.pv is None,
        request.position@.legal_moves().len() == 0 ==> r.mv is None && r.eval is None,
        request.position@.legal_moves().len() > 0 ==> exists|m: Move|
            #[trigger] root_choice(request.position@, m, r, request.max_depth, request.time_left),
{
    get_move_full_tt(request)
}

/// A benchmark request turned into an unbounded search of its depth.
fn prepare_to_benchmark(benchmark_request: BenchmarkRequest) -> (r: SearchRequest)
    ensures
        r.position == benchmark_request.position,
        r.max_depth == benchmark_request.max_depth,
        r.time_left is None,
{
    SearchRequest {
        position: benchmark_request.position,
        max_depth: benchmark_request.max_depth,
        time_left: None,
        debug: true,
    }
}

/// The benchmark of the search with the move-ordering table, to the requested depth.
pub fn spectre_v1_benchmark(br: BenchmarkRequest) -> (r: SearchResult)
    requires
        br.position@.playable(),
        1 <= br.max_depth <= MAX_SEARCH_DEPTH,
    ensures
        r.pv is None,
        br.position@.legal_moves().len() > 0 ==> exists|m: Move|
            #[trigger] root_choice(br.position@, m, r, br.max_depth, None),
{
    get_move(prepare_to_benchmark(br))
}

/// The benchmark of the search with the full table, to the requested depth.
pub fn spectre_v2_benchmark(br: BenchmarkRequest) -> (r: SearchResult)
    requires
        br.position@.playable(),
        1 <= br.max_depth <= MAX_SEARCH_DEPTH,
    ensures
        r.pv is None,
        br.position@.legal_moves().len() > 0 ==> exists|m: Move|
            #[trigger] root_choice(br.position@, m, r, br.max_depth, None),
{
    get_move_full_tt(prepare_to_benchmark(br))
}

} // verus!
