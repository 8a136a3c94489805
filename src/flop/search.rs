use vstd::prelude::*;

use crate::flop::board_rep::{
    lemma_apply_playable, lemma_legal_moves_sound, lemma_undo_inverts_make, Board, Move, Position,
};
use crate::flop::eval::{eval, eval_spec, lemma_eval_bounds};
use crate::clock::{deadline_passed, elapsed_nanos};
use crate::flop::convert_move;
use crate::helpers::turn::W;
use crate::models::{BenchmarkRequest, SearchResult};
use crate::models;

verus! {

/// The score of a won game, before the adjustment that prefers quicker wins.
pub const BIG_ENOUGH_VALUE: isize = 10000;

/// Lower than any score a search can return.
pub const LOWEST_VALUE: isize = -1000000;

/// The deepest search the engines accept.
pub const MAX_SEARCH_DEPTH: usize = 1000;

/// +1 when the first side is to move, -1 otherwise.
pub open spec fn color(p: Position) -> int {
    if p.turn == W {
        1
    } else {
        -1
    }
}

/// The negamax value of `p` searched `depth` plies deep, from the point of view of
/// the side to move. A side without moves has lost; a move onto height 3 wins. Both
/// count for more the nearer to the root they happen.
pub open spec fn negamax_value(p: Position, depth: nat) -> int
    decreases depth, 2int, 0int,
{
    if depth == 0 {
        color(p) * eval_spec(p)
    } else if p.legal_moves().len() == 0 {
        -BIG_ENOUGH_VALUE - depth
    } else {
        best_value(p, p.legal_moves(), depth)
    }
}

/// The best of the values of `moves`, or `LOWEST_VALUE` when there are none.
pub open spec fn best_value(p: Position, moves: Seq<Move>, depth: nat) -> int
    decreases depth, 1int, moves.len(),
{
    if depth == 0 || moves.len() == 0 {
        LOWEST_VALUE as int
    } else {
        let rest = best_value(p, moves.drop_last(), depth);
        let last = move_value(p, moves.last(), depth);
        if last > rest {
            last
        } else {
            rest
        }
    }
}

/// The value of playing `mv` in `p` with `depth` plies left, for the side that plays it.
pub open spec fn move_value(p: Position, mv: Move, depth: nat) -> int
    decreases depth, 0int, 0int,
{
    if depth == 0 {
        LOWEST_VALUE as int
    } else if p.is_win(mv) {
        BIG_ENOUGH_VALUE + depth - 1
    } else {
        -negamax_value(p.apply(mv), (depth - 1) as nat)
    }
}

/// What a fail-soft alpha-beta search on the window (`alpha`, `beta`) guarantees of
/// its result `r` against the true value `v`: exact inside the window, a bound outside.
pub open spec fn within_window(r: int, v: int, alpha: int, beta: int) -> bool {
    &&& (r <= alpha ==> v <= r)
    &&& (r >= beta ==> v >= r)
    &&& (alpha < r < beta ==> r == v)
}

/// The lower end of a window, brought within the range of scores.
pub open spec fn window_floor(alpha: int) -> int {
    if alpha < LOWEST_VALUE {
        LOWEST_VALUE as int
    } else if alpha > -LOWEST_VALUE - 1 {
        -LOWEST_VALUE - 1
    } else {
        alpha
    }
}

/// The upper end of a window, brought within the range of scores.
pub open spec fn window_ceiling(beta: int) -> int {
    if beta > -LOWEST_VALUE {
        -LOWEST_VALUE as int
    } else if beta < LOWEST_VALUE + 1 {
        LOWEST_VALUE + 1
    } else {
        beta
    }
}

/// Brings a window within the range of scores. Every score lies strictly inside that
/// range, so the result of a search on the narrowed window means the same on the
/// given one.
pub fn clamp_window(alpha: isize, beta: isize) -> (r: (isize, isize))
    requires
        alpha < beta,
    ensures
        r.0 == window_floor(alpha as int),
        r.1 == window_ceiling(beta as int),
        LOWEST_VALUE <= r.0 < r.1 <= -LOWEST_VALUE,
{
    let lo = if alpha < LOWEST_VALUE {
        LOWEST_VALUE
    } else if alpha > -LOWEST_VALUE - 1 {
        -LOWEST_VALUE - 1
    } else {
        alpha
    };
    let hi = if beta > -LOWEST_VALUE {
        -LOWEST_VALUE
    } else if beta < LOWEST_VALUE + 1 {
        LOWEST_VALUE + 1
    } else {
        beta
    };
    (lo, hi)
}

/// A score compares with a window as it compares with the window brought within range.
pub proof fn lemma_clamped_window(r: int, v: int, alpha: int, beta: int)
    requires
        -BIG_ENOUGH_VALUE - MAX_SEARCH_DEPTH <= r <= BIG_ENOUGH_VALUE + MAX_SEARCH_DEPTH,
    ensures
        (r <= alpha) == (r <= window_floor(alpha)),
        (r >= beta) == (r >= window_ceiling(beta)),
        within_window(r, v, window_floor(alpha), window_ceiling(beta)) ==> within_window(r, v, alpha, beta),
{
}

pub proof fn lemma_best_value_prefix(p: Position, moves: Seq<Move>, depth: nat, i: int)
    requires
        depth > 0,
        0 <= i < moves.len(),
    ensures
        best_value(p, moves.take(i + 1), depth) == if move_value(p, moves[i], depth) > best_value(
            p,
            moves.take(i),
            depth,
        ) {
            move_value(p, moves[i], depth)
        } else {
            best_value(p, moves.take(i), depth)
        },
{
    assert(moves.take(i + 1).drop_last() =~= moves.take(i));
}

pub proof fn lemma_best_value_at_least(p: Position, moves: Seq<Move>, depth: nat, i: int)
    requires
        depth > 0,
        0 <= i < moves.len(),
    ensures
        best_value(p, moves, depth) >= move_value(p, moves[i], depth),
    decreases moves.len(),
{
    if i < moves.len() - 1 {
        lemma_best_value_at_least(p, moves.drop_last(), depth, i);
    }
}

/// A bound on the value of every move bounds the best of them.
pub proof fn lemma_best_value_upper(p: Position, moves: Seq<Move>, depth: nat, v: int)
    requires
        depth > 0,
        v >= LOWEST_VALUE,
        forall|j: int| 0 <= j < moves.len() ==> move_value(p, #[trigger] moves[j], depth) <= v,
    ensures
        best_value(p, moves, depth) <= v,
    decreases moves.len(),
{
    if moves.len() > 0 {
        assert(move_value(p, moves[moves.len() - 1], depth) <= v);
        assert forall|j: int| 0 <= j < moves.drop_last().len() implies move_value(
            p,
            #[trigger] moves.drop_last()[j],
            depth,
        ) <= v by {
            assert(moves.drop_last()[j] == moves[j]);
        }
        lemma_best_value_upper(p, moves.drop_last(), depth, v);
    }
}

/// The best value is the one that bounds all the others and is reached by one move.
pub proof fn lemma_best_value_attained(p: Position, moves: Seq<Move>, depth: nat, v: int, j: int)
    requires
        depth > 0,
        v >= LOWEST_VALUE,
        0 <= j < moves.len(),
        move_value(p, moves[j], depth) == v,
        forall|k: int| 0 <= k < moves.len() ==> move_value(p, #[trigger] moves[k], depth) <= v,
    ensures
        best_value(p, moves, depth) == v,
{
    lemma_best_value_upper(p, moves, depth, v);
    lemma_best_value_at_least(p, moves, depth, j);
}

/// A result that is exact or a bound on a narrower window stays so on the wider one,
/// when the narrowing came from bounds known of the value.
pub proof fn lemma_window_narrowing(r: int, v: int, alpha: int, beta: int, narrow_alpha: int, narrow_beta: int)
    requires
        within_window(r, v, narrow_alpha, narrow_beta),
        alpha <= narrow_alpha,
        narrow_beta <= beta,
        narrow_alpha > alpha ==> v >= narrow_alpha,
        narrow_beta < beta ==> v <= narrow_beta,
    ensures
        within_window(r, v, alpha, beta),
{
}

/// Scores stay within a won or lost game's score at the root.
pub proof fn lemma_negamax_bounds(p: Position, depth: nat)
    requires
        p.playable(),
    ensures
        -BIG_ENOUGH_VALUE - depth <= negamax_value(p, depth) <= BIG_ENOUGH_VALUE + depth,
    decreases depth, 1int,
{
    if depth == 0 {
        lemma_eval_bounds(p);
    } else if p.legal_moves().len() > 0 {
        lemma_legal_moves_all_legal(p);
        lemma_best_value_bounds(p, p.legal_moves(), depth);
    }
}

proof fn lemma_best_value_bounds(p: Position, moves: Seq<Move>, depth: nat)
    requires
        p.playable(),
        depth > 0,
        moves.len() > 0,
        forall|i: int| 0 <= i < moves.len() ==> p.is_legal(#[trigger] moves[i]),
    ensures
        -BIG_ENOUGH_VALUE - depth < best_value(p, moves, depth) < BIG_ENOUGH_VALUE + depth,
    decreases depth, 0int, moves.len(),
{
    let mv = moves.last();
    assert(p.is_legal(moves[moves.len() - 1]));
    if !p.is_win(mv) {
        lemma_apply_playable(p, mv);
        lemma_negamax_bounds(p.apply(mv), (depth - 1) as nat);
    }
    assert(-BIG_ENOUGH_VALUE - depth < move_value(p, mv, depth) < BIG_ENOUGH_VALUE + depth);
    if moves.len() == 1 {
        assert(best_value(p, moves.drop_last(), depth) == LOWEST_VALUE);
    } else {
        assert forall|i: int| 0 <= i < moves.drop_last().len() implies p.is_legal(
            #[trigger] moves.drop_last()[i],
        ) by {
            assert(moves.drop_last()[i] == moves[i]);
        }
        lemma_best_value_bounds(p, moves.drop_last(), depth);
    }
}

pub proof fn lemma_legal_moves_all_legal(p: Position)
    ensures
        forall|i: int| 0 <= i < p.legal_moves().len() ==> p.is_legal(#[trigger] p.legal_moves()[i]),
{
    assert forall|i: int| 0 <= i < p.legal_moves().len() implies p.is_legal(
        #[trigger] p.legal_moves()[i],
    ) by {
        lemma_legal_moves_sound(p, i);
    }
}

/// A move has one written form: the negamax and alpha-beta root searches, which score
/// every root move alike, name their choice alike.
pub proof fn lemma_written_form_unique(p: Position, mv: Move, ext1: models::Move, ext2: models::Move)
    requires
        converts(p, mv, ext1),
        converts(p, mv, ext2),
    ensures
        ext1 == ext2,
{
}

/// Alpha-beta on a window that holds every score gives the negamax value itself.
pub proof fn lemma_full_window_is_negamax(p: Position, depth: nat, r: int)
    requires
        p.playable(),
        depth <= MAX_SEARCH_DEPTH,
        within_window(r, negamax_value(p, depth), LOWEST_VALUE as int, -LOWEST_VALUE),
    ensures
        r == negamax_value(p, depth),
{
    lemma_negamax_bounds(p, depth);
}

pub fn get_color(node: &Board) -> (r: isize)
    requires
        node@.wf(),
    ensures
        r == color(node@),
{
    if node.turn == W {
        1
    } else {
        -1
    }
}

/// Plays `mv`, searches the position it leads to, and takes the move back. The value is
/// returned from the point of view of the side that plays `mv`.
fn negamax_child(node: &mut Board, mv: Move, depth: usize) -> (r: isize)
    requires
        old(node)@.playable(),
        old(node)@.is_legal(mv),
        !old(node)@.is_win(mv),
        1 <= depth <= MAX_SEARCH_DEPTH,
    ensures
        r == move_value(old(node)@, mv, depth as nat),
        final(node)@ == old(node)@,
    decreases depth, 0int,
{
    let ghost p = node@;
    proof {
        lemma_apply_playable(p, mv);
        lemma_undo_inverts_make(p, mv);
        lemma_negamax_bounds(p.apply(mv), (depth - 1) as nat);
    }
    node.make_move(mv);
    let v = negamax(node, depth - 1);
    node.undo_move(mv);
    -v
}

/// The plain negamax search: every move is searched to the full depth.
pub fn negamax(node: &mut Board, depth: usize) -> (r: isize)
    requires
        old(node)@.playable(),
        depth <= MAX_SEARCH_DEPTH,
    ensures
        r == negamax_value(old(node)@, depth as nat),
        final(node)@ == old(node)@,
    decreases depth, 1int,
{
    let ghost p = node@;
    proof {
        lemma_negamax_bounds(p, depth as nat);
    }
    if depth == 0 {
        return get_color(node) * eval(node);
    }
    let moves = node.generate_moves();
    if moves.len() == 0 {
        return -BIG_ENOUGH_VALUE - depth as isize;
    }
    proof {
        lemma_legal_moves_all_legal(p);
    }
    let mut value = LOWEST_VALUE;
    let mut i: usize = 0;
    while i < moves.len()
        invariant
            node@ == p,
            p.playable(),
            1 <= depth <= MAX_SEARCH_DEPTH,
            moves@ == p.legal_moves(),
            forall|k: int| 0 <= k < moves@.len() ==> p.is_legal(#[trigger] moves@[k]),
            i <= moves@.len(),
            value == best_value(p, moves@.take(i as int), depth as nat),
            i > 0 ==> -BIG_ENOUGH_VALUE - depth < value < BIG_ENOUGH_VALUE + depth,
        decreases moves.len() - i,
    {
        let mv = moves[i];
        proof {
            lemma_best_value_prefix(p, moves@, depth as nat, i as int);
            assert(p.is_legal(moves@[i as int]));
            assert(moves@.take(i + 1) =~= moves@.take(i as int).push(mv));
            lemma_best_value_bounds(p, moves@.take(i + 1), depth as nat);
        }
        let new_value = if node.blocks[mv.to] == 3 {
            BIG_ENOUGH_VALUE + depth as isize - 1
        } else {
            negamax_child(node, mv, depth)
        };
        if new_value > value {
            value = new_value;
        }
        i += 1;
    }
    proof {
        assert(moves@.take(i as int) =~= moves@);
    }
    value
}

/// Plays `mv`, searches the position it leads to with alpha-beta, and takes the move
/// back. The value is returned from the point of view of the side that plays `mv`.
fn alpha_beta_child(node: &mut Board, mv: Move, depth: usize, alpha: isize, beta: isize) -> (r: isize)
    requires
        old(node)@.playable(),
        old(node)@.is_legal(mv),
        !old(node)@.is_win(mv),
        1 <= depth <= MAX_SEARCH_DEPTH,
        LOWEST_VALUE <= alpha < beta <= -LOWEST_VALUE,
    ensures
        within_window(r as int, move_value(old(node)@, mv, depth as nat), alpha as int, beta as int),
        -BIG_ENOUGH_VALUE - depth < r < BIG_ENOUGH_VALUE + depth,
        final(node)@ == old(node)@,
    decreases depth, 0int,
{
    let ghost p = node@;
    proof {
        lemma_apply_playable(p, mv);
        lemma_undo_inverts_make(p, mv);
    }
    node.make_move(mv);
    let v = alpha_beta_prunning(node, depth - 1, -beta, -alpha);
    node.undo_move(mv);
    -v
}

/// Alpha-beta at the root: a window that holds every score, so the result is the
/// negamax value.
pub fn alpha_beta_first_call(node: &mut Board, depth: usize) -> (r: isize)
    requires
        old(node)@.playable(),
        depth <= MAX_SEARCH_DEPTH,
    ensures
        r == negamax_value(old(node)@, depth as nat),
        final(node)@ == old(node)@,
{
    let r = alpha_beta_prunning(node, depth, LOWEST_VALUE, -LOWEST_VALUE);
    proof {
        lemma_full_window_is_negamax(node@, depth as nat, r as int);
    }
    r
}

/// Fail-soft alpha-beta: the negamax search, skipping the moves that cannot change
/// the result on the window (`alpha`, `beta`). Any window is accepted; one reaching
/// past the range of scores is first brought within it, which changes no result.
pub fn alpha_beta_prunning(node: &mut Board, depth: usize, alpha: isize, beta: isize) -> (r: isize)
    requires
        old(node)@.playable(),
        depth <= MAX_SEARCH_DEPTH,
        alpha < beta,
    ensures
        within_window(r as int, negamax_value(old(node)@, depth as nat), alpha as int, beta as int),
        -BIG_ENOUGH_VALUE - depth <= r <= BIG_ENOUGH_VALUE + depth,
        final(node)@ == old(node)@,
    decreases depth, 1int,
{
    let ghost p = node@;
    let (lo, hi) = clamp_window(alpha, beta);
    let ghost alpha0 = lo as int;
    let mut raised_alpha = lo;
    proof {
        lemma_negamax_bounds(p, depth as nat);
    }
    if depth == 0 {
        return get_color(node) * eval(node);
    }
    let moves = node.generate_moves();
    if moves.len() == 0 {
        return -BIG_ENOUGH_VALUE - depth as isize;
    }
    proof {
        lemma_legal_moves_all_legal(p);
    }
    let mut value = LOWEST_VALUE;
    let mut i: usize = 0;
    while i < moves.len()
        invariant
            node@ == p,
            p.playable(),
            1 <= depth <= MAX_SEARCH_DEPTH,
            moves@ == p.legal_moves(),
            moves@.len() > 0,
            forall|k: int| 0 <= k < moves@.len() ==> p.is_legal(#[trigger] moves@[k]),
            i <= moves@.len(),
            p == old(node)@,
            alpha0 == lo as int,
            lo == window_floor(alpha as int),
            hi == window_ceiling(beta as int),
            negamax_value(p, depth as nat) == best_value(p, moves@, depth as nat),
            LOWEST_VALUE <= alpha0 < hi <= -LOWEST_VALUE,
            raised_alpha == if value > alpha0 { value as int } else { alpha0 },
            raised_alpha < hi,
            i == 0 ==> value == LOWEST_VALUE,
            i > 0 ==> -BIG_ENOUGH_VALUE - depth < value < BIG_ENOUGH_VALUE + depth,
            value <= alpha0 ==> best_value(p, moves@.take(i as int), depth as nat) <= value,
            value > alpha0 ==> best_value(p, moves@.take(i as int), depth as nat) == value,
        decreases moves.len() - i,
    {
        let mv = moves[i];
        proof {
            lemma_best_value_prefix(p, moves@, depth as nat, i as int);
            lemma_best_value_at_least(p, moves@, depth as nat, i as int);
            assert(p.is_legal(moves@[i as int]));
        }
        let new_value = if node.blocks[mv.to] == 3 {
            BIG_ENOUGH_VALUE + depth as isize - 1
        } else {
            alpha_beta_child(node, mv, depth, raised_alpha, hi)
        };
        if new_value > value {
            value = new_value;
        }
        if value > raised_alpha {
            raised_alpha = value;
        }
        if raised_alpha >= hi {
            proof {
                lemma_clamped_window(value as int, negamax_value(p, depth as nat), alpha as int, beta as int);
            }
            return value;
        }
        i += 1;
    }
    proof {
        assert(moves@.take(i as int) =~= moves@);
        lemma_clamped_window(value as int, negamax_value(p, depth as nat), alpha as int, beta as int);
    }
    value
}

/// What the root search promises of its result `r` on `p`: no move when there is none;
/// otherwise a depth `d` searched in full (every depth up to `max_depth` when there is
/// no time limit), the last of the best-scored moves at `d` and its score.
pub open spec fn root_search_result(p: Position, max_depth: usize, time_left: Option<u64>, r: SearchResult) -> bool {
    &&& r.pv is None
    &&& (p.legal_moves().len() == 0 ==> r.mv is None && r.eval is None)
    &&& (p.legal_moves().len() > 0 ==> {
        &&& r.depth_searched matches Some(d)
        &&& 1 <= d <= max_depth
        &&& (time_left is None ==> d == max_depth)
        &&& r.mv matches Some(ext)
        &&& converts(p, p.legal_moves()[last_best_index(root_values(p, d as nat))], ext)
        &&& r.eval == Some(root_values(p, d as nat)[last_best_index(root_values(p, d as nat))] as isize)
    })
}

/// A search on a compact position: to `max_depth` plies at most, within `time_left`
/// nanoseconds when it is given.
pub struct SearchRequest {
    pub position: Board,
    pub max_depth: usize,
    pub time_left: Option<u64>,
    pub debug: bool,
}

/// The search that scores each root move.
#[derive(Clone, Copy, Debug, PartialEq, Eq, Structural)]
pub enum Searcher {
    Negamax,
    AlphaBeta,
}

/// The value of each legal move of `p`, in move order.
pub open spec fn root_values(p: Position, depth: nat) -> Seq<int> {
    p.legal_moves().map_values(|mv: Move| move_value(p, mv, depth))
}

/// Scores as mathematical integers.
pub open spec fn as_ints(scores: Seq<isize>) -> Seq<int> {
    scores.map_values(|v: isize| v as int)
}

/// The index of the last of the greatest values.
pub open spec fn last_best_index(values: Seq<int>) -> int
    decreases values.len(),
{
    if values.len() <= 1 {
        0
    } else {
        let j = last_best_index(values.drop_last());
        if values.last() >= values[j] {
            values.len() - 1
        } else {
            j
        }
    }
}

/// `ext` is `mv` as the players write it, without a build when it wins.
pub open spec fn converts(p: Position, mv: Move, ext: models::Move) -> bool {
    &&& ext.from.index_of() == mv.from
    &&& ext.to.index_of() == mv.to
    &&& (ext.at is None <==> p.is_win(mv))
    &&& (ext.at matches Some(a) ==> a.index_of() == mv.build)
}

pub proof fn lemma_last_best_index_bounds(values: Seq<int>)
    requires
        values.len() > 0,
    ensures
        0 <= last_best_index(values) < values.len(),
    decreases values.len(),
{
    if values.len() > 1 {
        lemma_last_best_index_bounds(values.drop_last());
    }
}

/// The index of the last of the greatest scores.
fn pick_best(scores: &Vec<isize>) -> (r: usize)
    requires
        scores@.len() > 0,
    ensures
        r == last_best_index(as_ints(scores@)),
        r < scores@.len(),
{
    let ghost values = as_ints(scores@);
    let mut best: usize = 0;
    let mut i: usize = 1;
    proof {
        assert(values.take(1).len() == 1);
    }
    while i < scores.len()
        invariant
            1 <= i <= scores@.len(),
            values == as_ints(scores@),
            best == last_best_index(values.take(i as int)),
            best < i,
        decreases scores.len() - i,
    {
        proof {
            assert(values.take(i + 1).drop_last() =~= values.take(i as int));
            lemma_last_best_index_bounds(values.take(i as int));
        }
        if scores[i] >= scores[best] {
            best = i;
        }
        i += 1;
    }
    proof {
        assert(values.take(i as int) =~= values);
    }
    best
}

/// The value of the root move `mv` at `depth`, for the side that plays it.
fn search_root_move(board: &mut Board, mv: Move, depth: usize, searcher: Searcher) -> (r: isize)
    requires
        old(board)@.playable(),
        old(board)@.is_legal(mv),
        1 <= depth <= MAX_SEARCH_DEPTH,
    ensures
        r == move_value(old(board)@, mv, depth as nat),
        final(board)@ == old(board)@,
{
    if board.blocks[mv.to] == 3 {
        return BIG_ENOUGH_VALUE + depth as isize - 1;
    }
    let ghost p = board@;
    proof {
        lemma_apply_playable(p, mv);
        lemma_undo_inverts_make(p, mv);
        lemma_negamax_bounds(p.apply(mv), (depth - 1) as nat);
    }
    board.make_move(mv);
    let v = match searcher {
        Searcher::Negamax => negamax(board, depth - 1),
        Searcher::AlphaBeta => alpha_beta_first_call(board, depth - 1),
    };
    board.undo_move(mv);
    -v
}

/// Scores every root move at `depth`, in move order. The clock is read after each
/// move when `budget` is given; once it has run out the scoring stops and `None` is
/// returned.
fn score_root_moves(
    board: &mut Board,
    moves: &Vec<Move>,
    depth: usize,
    searcher: Searcher,
    start: &std::time::Instant,
    budget: Option<u64>,
) -> (r: Option<Vec<isize>>)
    requires
        old(board)@.playable(),
        moves@ == old(board)@.legal_moves(),
        1 <= depth <= MAX_SEARCH_DEPTH,
    ensures
        r matches Some(scores) ==> as_ints(scores@) == root_values(old(board)@, depth as nat),
        budget is None ==> r is Some,
        final(board)@ == old(board)@,
{
    let ghost p = board@;
    proof {
        lemma_legal_moves_all_legal(p);
    }
    let mut scores: Vec<isize> = Vec::new();
    let mut i: usize = 0;
    while i < moves.len()
        invariant
            board@ == p,
            p == old(board)@,
            p.playable(),
            moves@ == p.legal_moves(),
            forall|k: int| 0 <= k < moves@.len() ==> p.is_legal(#[trigger] moves@[k]),
            1 <= depth <= MAX_SEARCH_DEPTH,
            i <= moves@.len(),
            scores@.len() == i,
            forall|k: int| 0 <= k < i ==> #[trigger] scores@[k] as int == move_value(p, moves@[k], depth as nat),
        decreases moves.len() - i,
    {
        let score = search_root_move(board, moves[i], depth, searcher);
        proof {
            assert(p.is_legal(moves@[i as int]));
        }
        scores.push(score);
        if deadline_passed(elapsed_nanos(start), budget) {
            return None;
        }
        i += 1;
    }
    proof {
        assert(as_ints(scores@) =~= root_values(p, depth as nat));
    }
    Some(scores)
}

/// Iterative deepening over the root moves. Depth 1 is always searched in full; each
/// further depth is searched while the time budget lasts, and one cut short by the
/// clock is discarded. The move returned is the last of the best-scored at the
/// deepest depth searched in full.
pub fn get_move(request: SearchRequest, searcher: Searcher) -> (r: SearchResult)
    requires
        request.position@.playable(),
        1 <= request.max_depth <= MAX_SEARCH_DEPTH,
    ensures
        root_search_result(request.position@, request.max_depth, request.time_left, r),
{
    let start = std::time::Instant::now();
    let mut board = request.position;
    let moves = board.generate_moves();
    if moves.len() == 0 {
        return SearchResult {
            mv: None,
            eval: None,
            pv: None,
            depth_searched: Some(0),
            time_spent: Some(elapsed_nanos(&start)),
        };
    }
    let ghost p = board@;
    let mut depth: usize = 1;
    let mut scores = match score_root_moves(&mut board, &moves, depth, searcher, &start, None) {
        Some(first_scores) => first_scores,
        None => {
            return SearchResult { mv: None, eval: None, pv: None, depth_searched: None, time_spent: None };
        },
    };
    let mut stopped = false;
    while !stopped && depth < request.max_depth
        invariant
            board@ == p,
            p == request.position@,
            p.playable(),
            moves@ == p.legal_moves(),
            1 <= depth <= request.max_depth <= MAX_SEARCH_DEPTH,
            request.time_left is None ==> !stopped,
            as_ints(scores@) == root_values(p, depth as nat),
        decreases request.max_depth - depth, if stopped { 0int } else { 1int },
    {
        match score_root_moves(&mut board, &moves, depth + 1, searcher, &start, request.time_left) {
            Some(next_scores) => {
                scores = next_scores;
                depth += 1;
            },
            None => {
                stopped = true;
            },
        }
    }
    proof {
        assert(scores@.len() == moves@.len());
        lemma_last_best_index_bounds(root_values(p, depth as nat));
    }
    let best = pick_best(&scores);
    proof {
        lemma_legal_moves_sound(p, best as int);
        assert(as_ints(scores@)[best as int] == scores@[best as int] as int);
    }
    let mv = convert_move(&board, moves[best]);
    SearchResult {
        mv: Some(mv),
        eval: Some(scores[best]),
        pv: None,
        depth_searched: Some(depth),
        time_spent: Some(elapsed_nanos(&start)),
    }
}

/// The engine's search: alpha-beta scores the root moves.
pub fn get_best_move(request: SearchRequest) -> (r: SearchResult)
    requires
        request.position@.playable(),
        1 <= request.max_depth <= MAX_SEARCH_DEPTH,
    ensures
        root_search_result(request.position@, request.max_depth, request.time_left, r),
{
    get_move(request, Searcher::AlphaBeta)
}

/// A benchmark request turned into an unbounded search of its depth.
fn prepare_to_benchmark(benchmark_request: BenchmarkRequest) -> (r: SearchRequest)
    ensures
        r.position == benchmark_request.position,
        r.max_depth == benchmark_request.max_depth,
        r.time_left is None,
{
    SearchRequest {
        position: benchmark_request.position,
        max_depth: benchmark_request.max_depth,
        time_left: None,
        debug: true,
    }
}

/// The benchmark of the plain negamax search, to the requested depth.
pub fn flop_v1_benchmark(br: BenchmarkRequest) -> (r: SearchResult)
    requires
        br.position@.playable(),
        1 <= br.max_depth <= MAX_SEARCH_DEPTH,
    ensures
        r.pv is None,
        br.position@.legal_moves().len() > 0 ==> {
            let p = br.position@;
            let d = br.max_depth as nat;
            &&& r.depth_searched == Some(br.max_depth)
            &&& r.mv matches Some(ext)
            &&& converts(p, p.legal_moves()[last_best_index(root_values(p, d))], ext)
            &&& r.eval == Some(root_values(p, d)[last_best_index(root_values(p, d))] as isize)
        },
{
    get_move(prepare_to_benchmark(br), Searcher::Negamax)
}

/// The benchmark of the alpha-beta search, to the requested depth.
pub fn flop_v2_benchmark(br: BenchmarkRequest) -> (r: SearchResult)
    requires
        br.position@.playable(),
        1 <= br.max_depth <= MAX_SEARCH_DEPTH,
    ensures
        r.pv is None,
        br.position@.legal_moves().len() > 0 ==> {
            let p = br.position@;
            let d = br.max_depth as nat;
            &&& r.depth_searched == Some(br.max_depth)
            &&& r.mv matches Some(ext)
            &&& converts(p, p.legal_moves()[last_best_index(root_values(p, d))], ext)
            &&& r.eval == Some(root_values(p, d)[last_best_index(root_values(p, d))] as isize)
        },
{
    get_move(prepare_to_benchmark(br), Searcher::AlphaBeta)
}

} // verus!
