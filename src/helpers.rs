pub mod squares;
pub mod turn;
pub mod workers;

use vstd::prelude::*;

use crate::flop::board_rep::Board;

verus! {

/// The number that `hash_workers` gives the four worker cells: their digits in base 25,
/// the first slot least significant.
pub open spec fn workers_code(workers: Seq<usize>) -> int {
    workers[0] + 25 * workers[1] + 625 * workers[2] + 15625 * workers[3]
}

/// Packs the four worker cells into one number, in base 25.
pub fn hash_workers(workers: [usize; 4]) -> (r: usize)
    requires
        workers_code(workers@) <= usize::MAX,
    ensures
        r == workers_code(workers@),
{
    workers[0] + 25 * workers[1] + 625 * workers[2] + 15625 * workers[3]
}

/// The four base-25 digits of `hash`, least significant first.
pub fn unhash_workers(hash: usize) -> (r: [usize; 4])
    ensures
        r@[0] == hash % 25,
        r@[1] == (hash / 25) % 25,
        r@[2] == (hash / 625) % 25,
        r@[3] == (hash / 15625) % 25,
{
    let base: usize = 25;
    let mut w: [usize; 4] = [0; 4];
    let mut rest = hash;
    w[0] = rest % base;
    rest = rest / base;
    w[1] = rest % base;
    rest = rest / base;
    w[2] = rest % base;
    rest = rest / base;
    w[3] = rest % base;
    proof {
        let h = hash as int;
        assert(h / 25 / 25 == h / 625) by (nonlinear_arith)
            requires h >= 0;
        assert(h / 625 / 25 == h / 15625) by (nonlinear_arith)
            requires h >= 0;
    }
    w
}

/// Unpacking the packed worker cells gives them back.
pub proof fn lemma_unhash_inverts_hash(workers: Seq<usize>)
    requires
        workers.len() == 4,
        forall|i: int| 0 <= i < 4 ==> #[trigger] workers[i] < 25,
    ensures
        workers_code(workers) % 25 == workers[0],
        (workers_code(workers) / 25) % 25 == workers[1],
        (workers_code(workers) / 625) % 25 == workers[2],
        (workers_code(workers) / 15625) % 25 == workers[3],
{
    let a = workers[0] as int;
    let b = workers[1] as int;
    let c = workers[2] as int;
    let d = workers[3] as int;
    assert(0 <= a < 25 && 0 <= b < 25 && 0 <= c < 25 && 0 <= d < 25);
    assert((a + 25 * b + 625 * c + 15625 * d) % 25 == a) by (nonlinear_arith)
        requires 0 <= a < 25, 0 <= b, 0 <= c, 0 <= d;
    assert((a + 25 * b + 625 * c + 15625 * d) / 25 == b + 25 * c + 625 * d) by (nonlinear_arith)
        requires 0 <= a < 25, 0 <= b, 0 <= c, 0 <= d;
    assert((b + 25 * c + 625 * d) % 25 == b) by (nonlinear_arith)
        requires 0 <= b < 25, 0 <= c, 0 <= d;
    assert((a + 25 * b + 625 * c + 15625 * d) / 625 == c + 25 * d) by (nonlinear_arith)
        requires 0 <= a < 25, 0 <= b < 25, 0 <= c, 0 <= d;
    assert((c + 25 * d) % 25 == c) by (nonlinear_arith)
        requires 0 <= c < 25, 0 <= d;
    assert((a + 25 * b + 625 * c + 15625 * d) / 15625 == d) by (nonlinear_arith)
        requires 0 <= a < 25, 0 <= b < 25, 0 <= c < 25, 0 <= d;
    assert(d % 25 == d);
}

/// The compact board of a stored position: the first 25 bytes of `blocks` are the
/// heights (0 where the record is shorter), `workers_hash` packs the worker cells as
/// `hash_workers` does, and `turn` is the side to move.
pub fn board_from_record(blocks: &Vec<u8>, workers_hash: usize, turn: usize) -> (r: Board)
    ensures
        forall|i: int| 0 <= i < 25 ==> #[trigger] r.blocks@[i] == if i < blocks@.len() { blocks@[i] } else { 0u8 },
        r.workers@[0] == workers_hash % 25,
        r.workers@[1] == (workers_hash / 25) % 25,
        r.workers@[2] == (workers_hash / 625) % 25,
        r.workers@[3] == (workers_hash / 15625) % 25,
        r.turn == #[verifier::truncate] (turn as u8),
{
    let mut array: [u8; 25] = [0; 25];
    let mut index: usize = 0;
    while index < 25 && index < blocks.len()
        invariant
            index <= 25,
            index <= blocks@.len(),
            forall|i: int| 0 <= i < index ==> #[trigger] array@[i] == blocks@[i],
            forall|i: int| index <= i < 25 ==> #[trigger] array@[i] == 0u8,
        decreases 25 - index,
    {
        array[index] = blocks[index];
        index += 1;
    }
    Board { blocks: array, workers: unhash_workers(workers_hash), turn: #[verifier::truncate] (turn as u8) }
}

} // verus!
