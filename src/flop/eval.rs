use vstd::prelude::*;

use crate::flop::board_rep::{get_neighbors, neighbor_table, lemma_neighbor_table_bounds, Board, Position};
use crate::helpers::workers::{U1, U2, W1, W2};

verus! {

pub open spec fn power(base: int, exp: nat) -> int
    decreases exp,
{
    if exp == 0 {
        1
    } else {
        base * power(base, (exp - 1) as nat)
    }
}

proof fn lemma_power_grows(base: int, e1: nat, e2: nat)
    requires
        base >= 1,
        e1 <= e2,
    ensures
        1 <= power(base, e1) <= power(base, e2),
    decreases e2,
{
    if e2 > 0 {
        if e1 < e2 {
            lemma_power_grows(base, e1, (e2 - 1) as nat);
        } else {
            lemma_power_grows(base, 0, (e2 - 1) as nat);
        }
        assert(power(base, (e2 - 1) as nat) <= base * power(base, (e2 - 1) as nat)) by (nonlinear_arith)
            requires base >= 1, power(base, (e2 - 1) as nat) >= 1;
    }
}

/// The score of one worker: its height weighted exponentially plus the number of
/// cells around it. Mobility is counted over all neighbouring cells, reachable or not:
/// the evaluation's known scores (an even start scores 0) rest on that count.
pub open spec fn worker_score(p: Position, square: int) -> int {
    6 * power(2, p.height(square) as nat) + neighbor_table(square).len()
}

/// The static evaluation from the first side's point of view: the scores of its two
/// workers minus those of the other side's.
pub open spec fn eval_spec(p: Position) -> int {
    worker_score(p, p.workers[0] as int) + worker_score(p, p.workers[1] as int)
        - worker_score(p, p.workers[2] as int) - worker_score(p, p.workers[3] as int)
}

/// The position with the two sides' workers swapped.
pub open spec fn sides_swapped(p: Position) -> Position {
    Position { workers: seq![p.workers[2], p.workers[3], p.workers[0], p.workers[1]], ..p }
}

/// Swapping the sides negates the evaluation.
pub proof fn lemma_eval_antisymmetric(p: Position)
    ensures
        eval_spec(sides_swapped(p)) == -eval_spec(p),
{
}

fn power_of(base: usize, exp: u8) -> (r: usize)
    requires
        power(base as int, exp as nat) <= usize::MAX,
    ensures
        r == power(base as int, exp as nat),
{
    let mut r: usize = 1;
    let mut k: u8 = 0;
    while k < exp
        invariant
            k <= exp,
            r == power(base as int, k as nat),
            power(base as int, exp as nat) <= usize::MAX,
        decreases exp - k,
    {
        proof {
            if base >= 1 {
                lemma_power_grows(base as int, (k + 1) as nat, exp as nat);
            } else {
                assert(base == 0);
                assert(r * base == 0) by (nonlinear_arith) requires base == 0;
            }
            assert(r * base == power(base as int, (k + 1) as nat)) by (nonlinear_arith)
                requires r == power(base as int, k as nat),
                power(base as int, (k + 1) as nat) == base * power(base as int, k as nat);
        }
        r = r * base;
        k += 1;
    }
    r
}

fn position_height(board: &Board, a: usize, b: usize, c: usize, worker_pos: usize) -> (r: usize)
    requires
        worker_pos < 25,
        power(b as int, board.blocks[worker_pos as int] as nat) <= usize::MAX,
        a * power(b as int, board.blocks[worker_pos as int] as nat) + c * neighbor_table(worker_pos as int).len()
            <= usize::MAX,
    ensures
        r == a * power(b as int, board@.height(worker_pos as int) as nat) + c * neighbor_table(worker_pos as int).len(),
{
    let h = board.blocks[worker_pos];
    let p = power_of(b, h);
    let n = num_neighbors(board, worker_pos);
    proof {
        assert(a * p <= usize::MAX) by (nonlinear_arith)
            requires a * p + c * n <= usize::MAX, c * n >= 0;
        assert(c * n >= 0) by (nonlinear_arith) requires c >= 0, n >= 0;
    }
    a * p + c * n
}

fn num_neighbors(_board: &Board, worker_pos: usize) -> (r: usize)
    ensures
        r == neighbor_table(worker_pos as int).len(),
{
    get_neighbors(worker_pos).len()
}

fn neighbor_height(board: &Board, a: usize, b: usize, c: usize, worker_pos: usize) -> (r: usize)
    requires
        worker_pos < 25,
        power(b as int, board.blocks[worker_pos as int] as nat) <= usize::MAX,
        a * power(b as int, board.blocks[worker_pos as int] as nat) + c * neighbor_table(worker_pos as int).len()
            <= usize::MAX,
    ensures
        r == a * power(b as int, board@.height(worker_pos as int) as nat) + c * neighbor_table(worker_pos as int).len(),
{
    position_height(board, a, b, c, worker_pos)
}

proof fn lemma_worker_score_bounds(p: Position, square: int)
    requires
        p.wf(),
        0 <= square < 25,
    ensures
        6 <= worker_score(p, square) <= 104,
        power(2, p.height(square) as nat) <= 16,
{
    lemma_neighbor_table_bounds(square);
    let h = p.height(square);
    assert(0 <= h <= 4);
    reveal_with_fuel(power, 5);
}

/// The static evaluation stays within 208 either way.
pub proof fn lemma_eval_bounds(p: Position)
    requires
        p.wf(),
    ensures
        -208 <= eval_spec(p) <= 208,
{
    lemma_worker_score_bounds(p, p.workers[0] as int);
    lemma_worker_score_bounds(p, p.workers[1] as int);
    lemma_worker_score_bounds(p, p.workers[2] as int);
    lemma_worker_score_bounds(p, p.workers[3] as int);
}

fn nh_s(board: &Board, worker_pos: usize) -> (r: usize)
    requires
        board@.wf(),
        worker_pos < 25,
    ensures
        r == worker_score(board@, worker_pos as int),
        r <= 104,
{
    proof {
        lemma_worker_score_bounds(board@, worker_pos as int);
        lemma_neighbor_table_bounds(worker_pos as int);
    }
    neighbor_height(board, 6, 2, 1, worker_pos)
}

/// Scores the position for the first side: positive when its workers stand higher or
/// have more room than the other side's.
pub fn eval(board: &Board) -> (r: isize)
    requires
        board@.wf(),
    ensures
        r == eval_spec(board@),
        -208 <= r <= 208,
{
    (nh_s(board, board.workers[W1]) + nh_s(board, board.workers[W2])) as isize - (nh_s(
        board,
        board.workers[U1],
    ) + nh_s(board, board.workers[U2])) as isize
}

} // verus!
