use vstd::prelude::*;

use crate::helpers::squares::{
    A1, A2, A3, A4, A5, B1, B2, B3, B4, B5, C1, C2, C3, C4, C5, D1, D2, D3, D4, D5, E1, E2, E3,
    E4, E5,
};
use crate::helpers::turn::{U, W};
use crate::helpers::workers::{U1, U2, W1, W2};

verus! {

/// King-move neighbours of each cell, in increasing cell order.
pub open spec fn neighbor_table(square: int) -> Seq<usize> {
    if square == 0 { seq![1usize, 5, 6] }
    else if square == 1 { seq![0usize, 2, 5, 6, 7] }
    else if square == 2 { seq![1usize, 3, 6, 7, 8] }
    else if square == 3 { seq![2usize, 4, 7, 8, 9] }
    else if square == 4 { seq![3usize, 8, 9] }
    else if square == 5 { seq![0usize, 1, 6, 10, 11] }
    else if square == 6 { seq![0usize, 1, 2, 5, 7, 10, 11, 12] }
    else if square == 7 { seq![1usize, 2, 3, 6, 8, 11, 12, 13] }
    else if square == 8 { seq![2usize, 3, 4, 7, 9, 12, 13, 14] }
    else if square == 9 { seq![3usize, 4, 8, 13, 14] }
    else if square == 10 { seq![5usize, 6, 11, 15, 16] }
    else if square == 11 { seq![5usize, 6, 7, 10, 12, 15, 16, 17] }
    else if square == 12 { seq![6usize, 7, 8, 11, 13, 16, 17, 18] }
    else if square == 13 { seq![7usize, 8, 9, 12, 14, 17, 18, 19] }
    else if square == 14 { seq![8usize, 9, 13, 18, 19] }
    else if square == 15 { seq![10usize, 11, 16, 20, 21] }
    else if square == 16 { seq![10usize, 11, 12, 15, 17, 20, 21, 22] }
    else if square == 17 { seq![11usize, 12, 13, 16, 18, 21, 22, 23] }
    else if square == 18 { seq![12usize, 13, 14, 17, 19, 22, 23, 24] }
    else if square == 19 { seq![13usize, 14, 18, 23, 24] }
    else if square == 20 { seq![15usize, 16, 21] }
    else if square == 21 { seq![15usize, 16, 17, 20, 22] }
    else if square == 22 { seq![16usize, 17, 18, 21, 23] }
    else if square == 23 { seq![17usize, 18, 19, 22, 24] }
    else if square == 24 { seq![18usize, 19, 23] }
    else { seq![] }
}

/// Two distinct cells that touch by a side or a corner.
pub open spec fn king_adjacent(s: int, t: int) -> bool {
    &&& 0 <= s < 25
    &&& 0 <= t < 25
    &&& s != t
    &&& -1 <= s / 5 - t / 5 <= 1
    &&& -1 <= s % 5 - t % 5 <= 1
}

/// The table lists exactly the king-move neighbours of each cell.
pub proof fn lemma_neighbor_table_is_king_moves(s: int, t: int)
    requires
        0 <= s < 25,
        0 <= t < 25,
    ensures
        neighbor_table(s).contains(t as usize) <==> king_adjacent(s, t),
{
    let q = neighbor_table(s);
    if q.contains(t as usize) {
        let i = choose|i: int| 0 <= i < q.len() && q[i] == t as usize;
        assert(king_adjacent(s, q[i] as int));
    }
    if king_adjacent(s, t) {
        let k = 3 * ((t / 5) - (s / 5) + 1) + ((t % 5) - (s % 5) + 1);
        assert(0 <= k < 9);
        assert(q.contains(t as usize)) by {
            assert(q.len() >= 3);
            assert(exists|i: int| 0 <= i < q.len() && q[i] == t as usize);
        }
    }
}

/// Every cell has at most eight neighbours, all of them cells of the grid.
pub proof fn lemma_neighbor_table_bounds(square: int)
    ensures
        neighbor_table(square).len() <= 8,
        forall|i: int| 0 <= i < neighbor_table(square).len() ==> #[trigger] neighbor_table(square)[i] < 25,
{
}

/// The neighbours of a cell.
pub fn get_neighbors(square: usize) -> (r: Vec<usize>)
    ensures
        r@ == neighbor_table(square as int),
        square < 25 ==> forall|t: int| 0 <= t < 25 ==> (r@.contains(t as usize) <==> king_adjacent(square as int, t)),
        forall|i: int, j: int| 0 <= i < j < r@.len() ==> r@[i] < r@[j],
        square >= 25 ==> r@.len() == 0,
{
    let r = if square == A1 { vec![A2, B1, B2] }
    else if square == A2 { vec![A1, A3, B1, B2, B3] }
    else if square == A3 { vec![A2, A4, B2, B3, B4] }
    else if square == A4 { vec![A3, A5, B3, B4, B5] }
    else if square == A5 { vec![A4, B4, B5] }
    else if square == B1 { vec![A1, A2, B2, C1, C2] }
    else if square == B2 { vec![A1, A2, A3, B1, B3, C1, C2, C3] }
    else if square == B3 { vec![A2, A3, A4, B2, B4, C2, C3, C4] }
    else if square == B4 { vec![A3, A4, A5, B3, B5, C3, C4, C5] }
    else if square == B5 { vec![A4, A5, B4, C4, C5] }
    else if square == C1 { vec![B1, B2, C2, D1, D2] }
    else if square == C2 { vec![B1, B2, B3, C1, C3, D1, D2, D3] }
    else if square == C3 { vec![B2, B3, B4, C2, C4, D2, D3, D4] }
    else if square == C4 { vec![B3, B4, B5, C3, C5, D3, D4, D5] }
    else if square == C5 { vec![B4, B5, C4, D4, D5] }
    else if square == D1 { vec![C1, C2, D2, E1, E2] }
    else if square == D2 { vec![C1, C2, C3, D1, D3, E1, E2, E3] }
    else if square == D3 { vec![C2, C3, C4, D2, D4, E2, E3, E4] }
    else if square == D4 { vec![C3, C4, C5, D3, D5, E3, E4, E5] }
    else if square == D5 { vec![C4, C5, D4, E4, E5] }
    else if square == E1 { vec![D1, D2, E2] }
    else if square == E2 { vec![D1, D2, D3, E1, E3] }
    else if square == E3 { vec![D2, D3, D4, E2, E4] }
    else if square == E4 { vec![D3, D4, D5, E3, E5] }
    else if square == E5 { vec![D4, D5, E4] }
    else { vec![] };
    proof {
        assert(r@ =~= neighbor_table(square as int));
        if square < 25 {
            assert forall|t: int| 0 <= t < 25 implies (r@.contains(t as usize) <==> king_adjacent(square as int, t)) by {
                lemma_neighbor_table_is_king_moves(square as int, t);
            }
        }
    }
    r
}


/// Position keys are taken modulo this number.
pub const KEY_MODULUS: u64 = 576460752303423487;

/// One step of a position key: the key so far read as a number in `base`, with one
/// more digit.
pub open spec fn key_step(key: int, digit: int, base: int) -> int {
    (key * base + digit) % (KEY_MODULUS as int)
}

/// The key of the first `n` heights.
pub open spec fn blocks_key(blocks: Seq<u8>, n: int) -> int
    decreases n,
{
    if n <= 0 {
        0
    } else {
        key_step(blocks_key(blocks, n - 1), blocks[n - 1] as int, 5)
    }
}

/// The key `start` followed by the first `n` worker cells.
pub open spec fn workers_key(start: int, workers: Seq<usize>, n: int) -> int
    decreases n,
{
    if n <= 0 {
        start
    } else {
        key_step(workers_key(start, workers, n - 1), workers[n - 1] as int, 25)
    }
}

/// The key under which a position is filed in a transposition table.
pub open spec fn position_key_of(p: Position) -> u64 {
    key_step(workers_key(blocks_key(p.blocks, 25), p.workers, 4), p.turn as int, 2) as u64
}

/// A candidate worker relocation, without its build.
#[derive(Clone, Copy, Debug)]
pub struct HalfMove {
    pub from: usize,
    pub to: usize,
}

/// A worker relocation and the cell built on afterwards.
#[derive(Clone, Copy, Debug, PartialEq, Eq, Structural)]
pub struct Move {
    pub from: usize,
    pub to: usize,
    pub build: usize,
}

/// The compact position used by the search: one height per cell, the cells of the
/// four workers (two per side) and the side to move.
#[derive(Clone, Copy, Debug, PartialEq)]
pub struct Board {
    pub blocks: [u8; 25],
    pub workers: [usize; 4],
    pub turn: u8,
}

/// Why a move is not legal, in the order in which the rules are checked.
#[derive(Clone, Copy, Debug, PartialEq, Eq, Structural)]
pub enum MoveError {
    InvalidToSquare,
    InvalidBuildSquare,
    OccupiedToSquare,
    OccupiedBuildSquare,
    HeightDifferenceHigh,
    ToSquareInaccessible,
    BuildSquareInaccessible,
    WorkerOfWrongColor,
    InvalidBuildOnWin,
    WorkerNotFound,
}

/// The mathematical content of a `Board`.
pub ghost struct Position {
    pub blocks: Seq<u8>,
    pub workers: Seq<usize>,
    pub turn: u8,
}

impl View for Board {
    type V = Position;

    open spec fn view(&self) -> Position {
        Position { blocks: self.blocks@, workers: self.workers@, turn: self.turn }
    }
}

impl Position {
    /// Heights are at most 4, workers stand on distinct cells of the grid, and the
    /// turn is one of the two sides.
    pub open spec fn wf(self) -> bool {
        &&& self.blocks.len() == 25
        &&& self.workers.len() == 4
        &&& forall|i: int| 0 <= i < 25 ==> #[trigger] self.blocks[i] <= 4
        &&& forall|i: int| 0 <= i < 4 ==> #[trigger] self.workers[i] < 25
        &&& forall|i: int, j: int| 0 <= i < j < 4 ==> self.workers[i] != self.workers[j]
        &&& self.turn < 2
    }

    /// A well-formed position in which no worker stands on a dome: every position
    /// reached by play is one.
    pub open spec fn playable(self) -> bool {
        &&& self.wf()
        &&& forall|i: int| 0 <= i < 4 ==> self.blocks[#[trigger] self.workers[i] as int] < 4
    }

    pub open spec fn height(self, square: int) -> int {
        self.blocks[square] as int
    }

    pub open spec fn occupied(self, square: int) -> bool {
        ||| self.workers[0] == square
        ||| self.workers[1] == square
        ||| self.workers[2] == square
        ||| self.workers[3] == square
    }

    /// No worker and no dome on the cell.
    pub open spec fn free(self, square: int) -> bool {
        !self.occupied(square) && self.height(square) < 4
    }

    /// The worker on `square` belongs to the side that is not to move.
    pub open spec fn owned_by_opponent(self, square: int) -> bool {
        ||| (self.turn == W && (self.workers[2] == square || self.workers[3] == square))
        ||| (self.turn == U && (self.workers[0] == square || self.workers[1] == square))
    }

    pub open spec fn half_move_check(self, hm: HalfMove) -> Result<(), MoveError> {
        if !self.occupied(hm.from as int) {
            Err(MoveError::WorkerNotFound)
        } else if hm.to > 24 {
            Err(MoveError::InvalidToSquare)
        } else if !self.free(hm.to as int) {
            Err(MoveError::OccupiedToSquare)
        } else if self.height(hm.to as int) > self.height(hm.from as int) + 1 {
            Err(MoveError::HeightDifferenceHigh)
        } else if self.owned_by_opponent(hm.from as int) {
            Err(MoveError::WorkerOfWrongColor)
        } else if !neighbor_table(hm.to as int).contains(hm.from) {
            Err(MoveError::ToSquareInaccessible)
        } else {
            Ok(())
        }
    }

    pub open spec fn move_check(self, mv: Move) -> Result<(), MoveError> {
        let hm = HalfMove { from: mv.from, to: mv.to };
        if self.half_move_check(hm) is Err {
            self.half_move_check(hm)
        } else if mv.build > 24 {
            Err(MoveError::InvalidBuildSquare)
        } else if (!self.free(mv.build as int) && mv.build != mv.from) || mv.build == mv.to {
            Err(MoveError::OccupiedBuildSquare)
        } else if !neighbor_table(mv.build as int).contains(mv.to) {
            Err(MoveError::BuildSquareInaccessible)
        } else if self.height(mv.to as int) == 3 && mv.build != mv.from {
            Err(MoveError::InvalidBuildOnWin)
        } else {
            Ok(())
        }
    }

    pub open spec fn is_legal(self, mv: Move) -> bool {
        self.move_check(mv) is Ok
    }

    /// A move onto a cell of height 3 wins the game.
    pub open spec fn is_win(self, mv: Move) -> bool {
        self.height(mv.to as int) == 3
    }

    /// The slot of the first worker standing on `square`.
    pub open spec fn slot_of(self, square: usize) -> int {
        if self.workers[0] == square {
            0
        } else if self.workers[1] == square {
            1
        } else if self.workers[2] == square {
            2
        } else {
            3
        }
    }

    /// The position after `mv`: the worker on `mv.from` goes to `mv.to`, the build cell
    /// rises by one unless the move wins, and the other side is to move.
    pub open spec fn apply(self, mv: Move) -> Position {
        Position {
            blocks: if self.is_win(mv) {
                self.blocks
            } else {
                self.blocks.update(mv.build as int, (self.blocks[mv.build as int] + 1) as u8)
            },
            workers: self.workers.update(self.slot_of(mv.from), mv.to),
            turn: (1 - self.turn) as u8,
        }
    }

    /// The position before `mv`, from the position after it.
    pub open spec fn unapply(self, mv: Move) -> Position {
        Position {
            blocks: if self.is_win(mv) {
                self.blocks
            } else {
                self.blocks.update(mv.build as int, (self.blocks[mv.build as int] - 1) as u8)
            },
            workers: self.workers.update(self.slot_of(mv.to), mv.from),
            turn: (1 - self.turn) as u8,
        }
    }

    /// The cells from which the side to move starts its moves.
    pub open spec fn movers(self) -> Seq<usize> {
        if self.turn == W {
            seq![self.workers[0], self.workers[1]]
        } else {
            seq![self.workers[2], self.workers[3]]
        }
    }

    pub open spec fn half_moves(self) -> Seq<HalfMove> {
        half_moves_from(self.movers()[0]) + half_moves_from(self.movers()[1])
    }

    pub open spec fn moves_of_half_moves(self, hms: Seq<HalfMove>) -> Seq<Move>
        decreases hms.len(),
    {
        if hms.len() == 0 {
            seq![]
        } else {
            self.moves_of_half_moves(hms.drop_last()) + self.moves_of_half_move(hms.last())
        }
    }

    pub open spec fn moves_of_half_move(self, hm: HalfMove) -> Seq<Move> {
        if self.half_move_check(hm) is Ok {
            self.keep_legal(full_moves(hm))
        } else {
            seq![]
        }
    }

    /// The legal ones among `moves`, in their order.
    pub open spec fn keep_legal(self, moves: Seq<Move>) -> Seq<Move>
        decreases moves.len(),
    {
        if moves.len() == 0 {
            seq![]
        } else if self.is_legal(moves.last()) {
            self.keep_legal(moves.drop_last()).push(moves.last())
        } else {
            self.keep_legal(moves.drop_last())
        }
    }

    /// The legal moves, by worker, then destination, then build cell, each in
    /// neighbour order.
    pub open spec fn legal_moves(self) -> Seq<Move> {
        self.moves_of_half_moves(self.half_moves())
    }
}

pub open spec fn half_moves_from(from: usize) -> Seq<HalfMove> {
    neighbor_table(from as int).map_values(|to: usize| HalfMove { from, to })
}

pub open spec fn full_moves(hm: HalfMove) -> Seq<Move> {
    neighbor_table(hm.to as int).map_values(|build: usize| Move { from: hm.from, to: hm.to, build })
}


/// Taking back a legal move restores the position exactly.
pub proof fn lemma_undo_inverts_make(p: Position, mv: Move)
    requires
        p.wf(),
        p.is_legal(mv),
    ensures
        p.apply(mv).unapply(mv) == p,
        p.apply(mv).occupied(mv.to as int),
        !p.apply(mv).is_win(mv) ==> p.apply(mv).height(mv.build as int) > 0,
{
    let q = p.apply(mv);
    assert(q.slot_of(mv.to) == p.slot_of(mv.from));
    assert(q.unapply(mv).blocks =~= p.blocks);
    assert(q.unapply(mv).workers =~= p.workers);
}

pub proof fn lemma_keep_legal_sound(p: Position, moves: Seq<Move>, i: int)
    requires
        0 <= i < p.keep_legal(moves).len(),
    ensures
        p.is_legal(p.keep_legal(moves)[i]),
        moves.contains(p.keep_legal(moves)[i]),
    decreases moves.len(),
{
    if moves.len() > 0 {
        let rest = p.keep_legal(moves.drop_last());
        if i < rest.len() {
            lemma_keep_legal_sound(p, moves.drop_last(), i);
            let k = choose|k: int| 0 <= k < moves.drop_last().len() && moves.drop_last()[k] == rest[i];
            assert(moves[k] == rest[i]);
        } else {
            assert(moves[moves.len() - 1] == moves.last());
        }
    }
}

pub proof fn lemma_moves_of_half_moves_sound(p: Position, hms: Seq<HalfMove>, i: int)
    requires
        0 <= i < p.moves_of_half_moves(hms).len(),
    ensures
        p.is_legal(p.moves_of_half_moves(hms)[i]),
    decreases hms.len(),
{
    if hms.len() > 0 {
        let rest = p.moves_of_half_moves(hms.drop_last());
        if i < rest.len() {
            lemma_moves_of_half_moves_sound(p, hms.drop_last(), i);
        } else if p.half_move_check(hms.last()) is Ok {
            lemma_keep_legal_sound(p, full_moves(hms.last()), i - rest.len());
        }
    }
}

/// Every generated move is legal.
pub proof fn lemma_legal_moves_sound(p: Position, i: int)
    requires
        0 <= i < p.legal_moves().len(),
    ensures
        p.is_legal(p.legal_moves()[i]),
{
    lemma_moves_of_half_moves_sound(p, p.half_moves(), i);
}

pub proof fn lemma_keep_legal_complete(p: Position, moves: Seq<Move>, mv: Move)
    requires
        moves.contains(mv),
        p.is_legal(mv),
    ensures
        p.keep_legal(moves).contains(mv),
    decreases moves.len(),
{
    let k = choose|k: int| 0 <= k < moves.len() && moves[k] == mv;
    if k == moves.len() - 1 {
        assert(p.keep_legal(moves).last() == mv);
    } else {
        assert(moves.drop_last()[k] == mv);
        lemma_keep_legal_complete(p, moves.drop_last(), mv);
        let rest = p.keep_legal(moves.drop_last());
        let j = choose|j: int| 0 <= j < rest.len() && rest[j] == mv;
        if p.is_legal(moves.last()) {
            assert(p.keep_legal(moves)[j] == mv);
        }
    }
}

pub proof fn lemma_moves_of_half_moves_complete(p: Position, hms: Seq<HalfMove>, hm: HalfMove, mv: Move)
    requires
        hms.contains(hm),
        p.half_move_check(hm) is Ok,
        full_moves(hm).contains(mv),
        p.is_legal(mv),
    ensures
        p.moves_of_half_moves(hms).contains(mv),
    decreases hms.len(),
{
    let k = choose|k: int| 0 <= k < hms.len() && hms[k] == hm;
    let rest = p.moves_of_half_moves(hms.drop_last());
    if k == hms.len() - 1 {
        lemma_keep_legal_complete(p, full_moves(hm), mv);
        let tail = p.keep_legal(full_moves(hm));
        let j = choose|j: int| 0 <= j < tail.len() && tail[j] == mv;
        assert((rest + tail)[rest.len() + j] == mv);
    } else {
        assert(hms.drop_last()[k] == hm);
        lemma_moves_of_half_moves_complete(p, hms.drop_last(), hm, mv);
        let j = choose|j: int| 0 <= j < rest.len() && rest[j] == mv;
        assert((rest + p.moves_of_half_move(hms.last()))[j] == mv);
    }
}

/// The neighbour table is symmetric.
pub proof fn lemma_neighbors_symmetric(s: int, t: int)
    requires
        0 <= s < 25,
        0 <= t < 25,
    ensures
        neighbor_table(s).contains(t as usize) <==> neighbor_table(t).contains(s as usize),
{
    lemma_neighbor_table_is_king_moves(s, t);
    lemma_neighbor_table_is_king_moves(t, s);
}

/// Every legal move is generated.
pub proof fn lemma_legal_moves_complete(p: Position, mv: Move)
    requires
        p.wf(),
        p.is_legal(mv),
    ensures
        p.legal_moves().contains(mv),
{
    let hm = HalfMove { from: mv.from, to: mv.to };
    assert(p.half_move_check(hm) is Ok);
    assert(mv.from < 25);
    lemma_neighbors_symmetric(mv.to as int, mv.from as int);
    lemma_neighbors_symmetric(mv.build as int, mv.to as int);
    let nf = neighbor_table(mv.from as int);
    let j = choose|j: int| 0 <= j < nf.len() && nf[j] == mv.to;
    let w: int = if p.movers()[0] == mv.from { 0 } else { 1 };
    assert(p.movers()[w] == mv.from);
    assert(half_moves_from(mv.from)[j] == hm);
    let hms = p.half_moves();
    if w == 0 {
        assert(hms[j] == hm);
    } else {
        assert(hms[half_moves_from(p.movers()[0]).len() + j] == hm);
    }
    let nt = neighbor_table(mv.to as int);
    let k = choose|k: int| 0 <= k < nt.len() && nt[k] == mv.build;
    assert(full_moves(hm)[k] == mv);
    lemma_moves_of_half_moves_complete(p, hms, hm, mv);
}

proof fn lemma_neighbor_table_sorted(s: int)
    ensures
        forall|i: int, j: int| 0 <= i < j < neighbor_table(s).len() ==> neighbor_table(s)[i] < neighbor_table(s)[j],
{
}

proof fn lemma_keep_legal_no_duplicates(p: Position, moves: Seq<Move>)
    requires
        moves.no_duplicates(),
    ensures
        p.keep_legal(moves).no_duplicates(),
    decreases moves.len(),
{
    if moves.len() > 0 {
        let rest = moves.drop_last();
        assert(rest.no_duplicates());
        lemma_keep_legal_no_duplicates(p, rest);
        let kept = p.keep_legal(rest);
        assert forall|i: int| 0 <= i < kept.len() implies kept[i] != moves.last() by {
            lemma_keep_legal_sound(p, rest, i);
            let k = choose|k: int| 0 <= k < rest.len() && rest[k] == kept[i];
            assert(moves[k] == rest[k]);
        }
    }
}

proof fn lemma_full_moves_no_duplicates(hm: HalfMove)
    ensures
        full_moves(hm).no_duplicates(),
        forall|i: int| 0 <= i < full_moves(hm).len() ==> (#[trigger] full_moves(hm)[i]).from == hm.from
            && full_moves(hm)[i].to == hm.to,
{
    lemma_neighbor_table_sorted(hm.to as int);
}

proof fn lemma_half_moves_no_duplicates(p: Position)
    requires
        p.wf(),
    ensures
        p.half_moves().no_duplicates(),
{
    let a = half_moves_from(p.movers()[0]);
    let b = half_moves_from(p.movers()[1]);
    lemma_neighbor_table_sorted(p.movers()[0] as int);
    lemma_neighbor_table_sorted(p.movers()[1] as int);
    assert(p.movers()[0] != p.movers()[1]);
    let h = p.half_moves();
    assert forall|i: int, j: int| 0 <= i < h.len() && 0 <= j < h.len() && i != j implies h[i] != h[j] by {
        if i < a.len() && j >= a.len() {
            assert(h[i].from != h[j].from);
        } else if i >= a.len() && j < a.len() {
            assert(h[i].from != h[j].from);
        }
    }
}

proof fn lemma_moves_of_half_moves_no_duplicates(p: Position, hms: Seq<HalfMove>)
    requires
        hms.no_duplicates(),
    ensures
        p.moves_of_half_moves(hms).no_duplicates(),
        forall|i: int| 0 <= i < p.moves_of_half_moves(hms).len() ==> hms.contains(
            HalfMove { from: (#[trigger] p.moves_of_half_moves(hms)[i]).from, to: p.moves_of_half_moves(hms)[i].to },
        ),
    decreases hms.len(),
{
    if hms.len() > 0 {
        let rest_hms = hms.drop_last();
        assert(rest_hms.no_duplicates());
        lemma_moves_of_half_moves_no_duplicates(p, rest_hms);
        let rest = p.moves_of_half_moves(rest_hms);
        let last = hms.last();
        let block = p.moves_of_half_move(last);
        lemma_full_moves_no_duplicates(last);
        lemma_keep_legal_no_duplicates(p, full_moves(last));
        assert forall|i: int| 0 <= i < block.len() implies (#[trigger] block[i]).from == last.from && block[i].to
            == last.to by {
            lemma_keep_legal_sound(p, full_moves(last), i);
            let k = choose|k: int| 0 <= k < full_moves(last).len() && full_moves(last)[k] == block[i];
            assert(full_moves(last)[k].from == last.from);
        }
        assert(!rest_hms.contains(last)) by {
            if rest_hms.contains(last) {
                let k = choose|k: int| 0 <= k < rest_hms.len() && rest_hms[k] == last;
                assert(hms[k] == hms[hms.len() - 1]);
            }
        }
        let all = rest + block;
        assert(all == p.moves_of_half_moves(hms));
        assert forall|i: int| 0 <= i < all.len() implies hms.contains(
            HalfMove { from: (#[trigger] all[i]).from, to: all[i].to },
        ) by {
            if i < rest.len() {
                assert(all[i] == rest[i]);
                let k = choose|k: int| 0 <= k < rest_hms.len() && rest_hms[k] == HalfMove { from: rest[i].from, to: rest[i].to };
                assert(hms[k] == rest_hms[k]);
            } else {
                assert(all[i] == block[i - rest.len()]);
                assert(HalfMove { from: all[i].from, to: all[i].to } == last);
                assert(hms[hms.len() - 1] == last);
            }
        }
        assert forall|i: int, j: int| 0 <= i < all.len() && 0 <= j < all.len() && i != j implies all[i] != all[j] by {
            if i < rest.len() && j >= rest.len() {
                let k = choose|k: int| 0 <= k < rest_hms.len() && rest_hms[k] == HalfMove { from: rest[i].from, to: rest[i].to };
                assert(all[j] == block[j - rest.len()]);
                if all[i] == all[j] {
                    assert(rest_hms.contains(last));
                }
            } else if i >= rest.len() && j < rest.len() {
                let k = choose|k: int| 0 <= k < rest_hms.len() && rest_hms[k] == HalfMove { from: rest[j].from, to: rest[j].to };
                assert(all[i] == block[i - rest.len()]);
                if all[i] == all[j] {
                    assert(rest_hms.contains(last));
                }
            } else if i < rest.len() && j < rest.len() {
                assert(all[i] == rest[i] && all[j] == rest[j]);
            } else {
                assert(all[i] == block[i - rest.len()] && all[j] == block[j - rest.len()]);
            }
        }
    }
}

/// No move is generated twice.
pub proof fn lemma_legal_moves_no_duplicates(p: Position)
    requires
        p.wf(),
    ensures
        p.legal_moves().no_duplicates(),
{
    lemma_half_moves_no_duplicates(p);
    lemma_moves_of_half_moves_no_duplicates(p, p.half_moves());
}

/// A winning relocation is generated once: the only generated move of that worker to
/// that cell builds on the vacated cell.
pub proof fn lemma_win_generated_once(p: Position, i: int, j: int)
    requires
        p.wf(),
        0 <= i < p.legal_moves().len(),
        0 <= j < p.legal_moves().len(),
        p.legal_moves()[i].from == p.legal_moves()[j].from,
        p.legal_moves()[i].to == p.legal_moves()[j].to,
        p.is_win(p.legal_moves()[i]),
    ensures
        i == j,
        p.legal_moves()[i].build == p.legal_moves()[i].from,
{
    lemma_legal_moves_sound(p, i);
    lemma_legal_moves_sound(p, j);
    lemma_legal_moves_no_duplicates(p);
}

/// A legal move keeps a playable position playable.
pub proof fn lemma_apply_playable(p: Position, mv: Move)
    requires
        p.playable(),
        p.is_legal(mv),
    ensures
        p.apply(mv).playable(),
{
    let q = p.apply(mv);
    let s = p.slot_of(mv.from);
    assert(0 <= s < 4 && p.workers[s] == mv.from);
    assert(forall|i: int| 0 <= i < 4 && i != s ==> q.workers[i] == p.workers[i]);
    assert(forall|i: int| 0 <= i < 4 ==> #[trigger] q.workers[i] != mv.build);
}

/// No generated move lands on an occupied cell, and none leaves a cell higher than 4.
/// This holds of playable positions: a worker standing on a dome could build on the
/// cell it leaves.
pub proof fn lemma_generated_moves_in_bounds(p: Position, i: int)
    requires
        p.playable(),
        0 <= i < p.legal_moves().len(),
    ensures
        !p.occupied(p.legal_moves()[i].to as int),
        forall|c: int| 0 <= c < 25 ==> #[trigger] p.apply(p.legal_moves()[i]).height(c) <= 4,
{
    lemma_legal_moves_sound(p, i);
    lemma_apply_playable(p, p.legal_moves()[i]);
}

/// A move onto a cell of height 3 is a win whatever its build cell, and such a move
/// is legal only with its build on the vacated cell, where nothing is built in play.
pub proof fn lemma_win_needs_no_build(p: Position, mv: Move, other_build: usize)
    requires
        p.wf(),
    ensures
        p.is_win(mv) == (p.height(mv.to as int) == 3),
        p.is_win(Move { build: other_build, ..mv }) == p.is_win(mv),
        p.is_legal(mv) && p.is_win(mv) ==> mv.build == mv.from,
{
}

/// Where `mv` stands in `moves`, if it does.
pub fn index_of_move(moves: &Vec<Move>, mv: Move) -> (r: Option<usize>)
    ensures
        r matches Some(i) ==> i < moves@.len() && moves@[i as int] == mv,
        r is None ==> !moves@.contains(mv),
{
    let mut i: usize = 0;
    while i < moves.len()
        invariant
            i <= moves@.len(),
            forall|k: int| 0 <= k < i ==> moves@[k] != mv,
        decreases moves.len() - i,
    {
        if moves[i] == mv {
            return Some(i);
        }
        i += 1;
    }
    None
}

pub fn contains_square(squares: &Vec<usize>, square: usize) -> (r: bool)
    ensures
        r == squares@.contains(square),
{
    let mut i: usize = 0;
    while i < squares.len()
        invariant
            i <= squares@.len(),
            forall|k: int| 0 <= k < i ==> squares@[k] != square,
        decreases squares.len() - i,
    {
        if squares[i] == square {
            return true;
        }
        i += 1;
    }
    false
}

impl Board {
    pub fn square_is_free(&self, square: usize) -> (r: bool)
        requires
            square < 25,
        ensures
            r == self@.free(square as int),
    {
        self.workers[W1] != square && self.workers[W2] != square && self.workers[U1] != square
            && self.workers[U2] != square && self.blocks[square] < 4
    }

    /// Heights are at most 4, the workers stand on distinct cells of the grid and none
    /// on a dome, and the turn is one of the two sides.
    pub fn is_playable(&self) -> (r: bool)
        ensures
            r == self@.playable(),
    {
        let mut i: usize = 0;
        while i < 25
            invariant
                i <= 25,
                forall|k: int| 0 <= k < i ==> #[trigger] self.blocks@[k] <= 4,
            decreases 25 - i,
        {
            if self.blocks[i] > 4 {
                return false;
            }
            i += 1;
        }
        let mut w: usize = 0;
        while w < 4
            invariant
                w <= 4,
                forall|k: int| 0 <= k < 25 ==> #[trigger] self.blocks@[k] <= 4,
                forall|k: int| 0 <= k < w ==> #[trigger] self.workers@[k] < 25,
                forall|k: int| 0 <= k < w ==> self.blocks@[#[trigger] self.workers@[k] as int] < 4,
                forall|j: int, k: int| 0 <= j < k < w ==> self.workers@[j] != self.workers@[k],
            decreases 4 - w,
        {
            if self.workers[w] >= 25 || self.blocks[self.workers[w]] >= 4 {
                return false;
            }
            let mut v: usize = 0;
            while v < w
                invariant
                    v <= w < 4,
                    forall|k: int| 0 <= k < v ==> self.workers@[k] != self.workers@[w as int],
                decreases w - v,
            {
                if self.workers[v] == self.workers[w] {
                    return false;
                }
                v += 1;
            }
            w += 1;
        }
        self.turn < 2
    }

    /// Both boards hold the same position.
    pub fn same_position(&self, other: &Board) -> (r: bool)
        ensures
            r == (self@ == other@),
    {
        let mut i: usize = 0;
        while i < 25
            invariant
                i <= 25,
                forall|k: int| 0 <= k < i ==> self.blocks@[k] == other.blocks@[k],
            decreases 25 - i,
        {
            if self.blocks[i] != other.blocks[i] {
                return false;
            }
            i += 1;
        }
        let mut w: usize = 0;
        while w < 4
            invariant
                w <= 4,
                forall|k: int| 0 <= k < 25 ==> self.blocks@[k] == other.blocks@[k],
                forall|k: int| 0 <= k < w ==> self.workers@[k] == other.workers@[k],
            decreases 4 - w,
        {
            if self.workers[w] != other.workers[w] {
                return false;
            }
            w += 1;
        }
        proof {
            assert(self.blocks@ =~= other.blocks@);
            assert(self.workers@ =~= other.workers@);
        }
        self.turn == other.turn
    }

    /// A hash of the position, used to file it in a transposition table. Equal
    /// positions get equal keys; different ones may share a key.
    pub fn position_key(&self) -> (r: u64)
        requires
            self@.wf(),
        ensures
            r == position_key_of(self@),
    {
        let mut key: u64 = 0;
        let mut i: usize = 0;
        while i < 25
            invariant
                i <= 25,
                self@.wf(),
                key == blocks_key(self@.blocks, i as int),
                key < KEY_MODULUS,
            decreases 25 - i,
        {
            proof {
                assert(key * 5 + 4 < 0x1_0000_0000_0000_0000) by (nonlinear_arith)
                    requires key < KEY_MODULUS;
            }
            key = (key * 5 + self.blocks[i] as u64) % KEY_MODULUS;
            i += 1;
        }
        let ghost start = key as int;
        let mut w: usize = 0;
        while w < 4
            invariant
                w <= 4,
                self@.wf(),
                start == blocks_key(self@.blocks, 25),
                key == workers_key(start, self@.workers, w as int),
                key < KEY_MODULUS,
            decreases 4 - w,
        {
            proof {
                assert(key * 25 + 24 < 0x1_0000_0000_0000_0000) by (nonlinear_arith)
                    requires key < KEY_MODULUS;
            }
            key = (key * 25 + self.workers[w] as u64) % KEY_MODULUS;
            w += 1;
        }
        (key * 2 + self.turn as u64) % KEY_MODULUS
    }

    /// Checks the relocation part of a move, reporting the first rule it breaks.
    pub fn half_move_is_legal(&self, hm: HalfMove) -> (r: Result<(), MoveError>)
        requires
            self@.wf(),
        ensures
            r == self@.half_move_check(hm),
    {
        if hm.from != self.workers[W1] && hm.from != self.workers[W2] && hm.from != self.workers[U1]
            && hm.from != self.workers[U2] {
            return Err(MoveError::WorkerNotFound);
        }
        if hm.to > E5 {
            return Err(MoveError::InvalidToSquare);
        }
        if !self.square_is_free(hm.to) {
            return Err(MoveError::OccupiedToSquare);
        }
        if self.blocks[hm.to] > self.blocks[hm.from] + 1 {
            return Err(MoveError::HeightDifferenceHigh);
        }
        if (self.turn == W && (hm.from == self.workers[U1] || hm.from == self.workers[U2])) || (
        self.turn == U && (hm.from == self.workers[W1] || hm.from == self.workers[W2])) {
            return Err(MoveError::WorkerOfWrongColor);
        }
        if !contains_square(&get_neighbors(hm.to), hm.from) {
            return Err(MoveError::ToSquareInaccessible);
        }
        Ok(())
    }

    /// Checks a whole move, reporting the first rule it breaks.
    pub fn move_is_legal(&self, mv: Move) -> (r: Result<(), MoveError>)
        requires
            self@.wf(),
        ensures
            r == self@.move_check(mv),
    {
        let half_move = HalfMove { from: mv.from, to: mv.to };
        let checked = self.half_move_is_legal(half_move);
        if checked.is_err() {
            return checked;
        }
        if mv.build > E5 {
            return Err(MoveError::InvalidBuildSquare);
        }
        if (!self.square_is_free(mv.build) && mv.build != mv.from) || (mv.build == mv.to) {
            return Err(MoveError::OccupiedBuildSquare);
        }
        if !contains_square(&get_neighbors(mv.build), mv.to) {
            return Err(MoveError::BuildSquareInaccessible);
        }
        if self.blocks[mv.to] == 3 && mv.build != mv.from {
            return Err(MoveError::InvalidBuildOnWin);
        }
        Ok(())
    }

    /// Moves the worker found on `mv.from` to `mv.to`, builds on `mv.build` unless
    /// the move wins, and passes the turn.
    pub fn make_move(&mut self, mv: Move)
        requires
            old(self)@.wf(),
            old(self)@.occupied(mv.from as int),
            mv.build < 25,
            mv.to < 25,
        ensures
            final(self)@ == old(self)@.apply(mv),
    {
        let slot: usize = if self.workers[0] == mv.from {
            0
        } else if self.workers[1] == mv.from {
            1
        } else if self.workers[2] == mv.from {
            2
        } else {
            3
        };
        if self.blocks[mv.to] != 3 {
            self.blocks[mv.build] = self.blocks[mv.build] + 1;
        }
        self.workers[slot] = mv.to;
        self.turn = 1 - self.turn;
        proof {
            assert(self.blocks@ =~= old(self)@.apply(mv).blocks);
            assert(self.workers@ =~= old(self)@.apply(mv).workers);
        }
    }

    /// Takes back `mv`, which must be the move that led to this position.
    pub fn undo_move(&mut self, mv: Move)
        requires
            old(self)@.blocks.len() == 25,
            old(self)@.workers.len() == 4,
            old(self)@.turn < 2,
            old(self)@.occupied(mv.to as int),
            mv.build < 25,
            mv.to < 25,
            old(self)@.height(mv.to as int) != 3 ==> old(self)@.height(mv.build as int) > 0,
        ensures
            final(self)@ == old(self)@.unapply(mv),
    {
        let slot: usize = if self.workers[0] == mv.to {
            0
        } else if self.workers[1] == mv.to {
            1
        } else if self.workers[2] == mv.to {
            2
        } else {
            3
        };
        if self.blocks[mv.to] != 3 {
            self.blocks[mv.build] = self.blocks[mv.build] - 1;
        }
        self.workers[slot] = mv.from;
        self.turn = 1 - self.turn;
        proof {
            assert(self.blocks@ =~= old(self)@.unapply(mv).blocks);
            assert(self.workers@ =~= old(self)@.unapply(mv).workers);
        }
    }

    /// Every relocation of a worker of the side to move onto a neighbouring cell,
    /// legal or not.
    pub fn generate_half_moves(&self) -> (r: Vec<HalfMove>)
        requires
            self@.wf(),
        ensures
            r@ == self@.half_moves(),
    {
        let from_squares: [usize; 2] = if self.turn == W {
            [self.workers[W1], self.workers[W2]]
        } else {
            [self.workers[U1], self.workers[U2]]
        };
        let mut r: Vec<HalfMove> = Vec::new();
        let mut w: usize = 0;
        while w < 2
            invariant
                w <= 2,
                from_squares@ == self@.movers(),
                w == 0 ==> r@ == Seq::<HalfMove>::empty(),
                w == 1 ==> r@ == half_moves_from(from_squares[0]),
                w == 2 ==> r@ == self@.half_moves(),
            decreases 2 - w,
        {
            let from_square = from_squares[w];
            let neighbors = get_neighbors(from_square);
            let ghost start = r@;
            let mut i: usize = 0;
            while i < neighbors.len()
                invariant
                    i <= neighbors@.len(),
                    neighbors@ == neighbor_table(from_square as int),
                    r@ == start + half_moves_from(from_square).take(i as int),
                decreases neighbors.len() - i,
            {
                r.push(HalfMove { from: from_square, to: neighbors[i] });
                proof {
                    assert(half_moves_from(from_square).take(i + 1) =~= half_moves_from(
                        from_square,
                    ).take(i as int).push(HalfMove { from: from_square, to: neighbors@[i as int] }));
                }
                i += 1;
            }
            proof {
                assert(half_moves_from(from_square).take(i as int) =~= half_moves_from(from_square));
                assert(start + Seq::<HalfMove>::empty() =~= start);
                assert(Seq::<HalfMove>::empty() + half_moves_from(from_squares[0]) =~= half_moves_from(from_squares[0]));
            }
            w += 1;
        }
        r
    }

    /// The moves that complete `half_move` with a build on a neighbour of its
    /// destination, legal or not.
    pub fn generate_full_moves(&self, half_move: HalfMove) -> (r: Vec<Move>)
        ensures
            r@ == full_moves(half_move),
    {
        let neighbors = get_neighbors(half_move.to);
        let mut r: Vec<Move> = Vec::new();
        let mut i: usize = 0;
        while i < neighbors.len()
            invariant
                i <= neighbors@.len(),
                neighbors@ == neighbor_table(half_move.to as int),
                r@ == full_moves(half_move).take(i as int),
            decreases neighbors.len() - i,
        {
            r.push(Move { from: half_move.from, to: half_move.to, build: neighbors[i] });
            proof {
                assert(full_moves(half_move).take(i + 1) =~= full_moves(half_move).take(i as int).push(
                    Move { from: half_move.from, to: half_move.to, build: neighbors@[i as int] },
                ));
            }
            i += 1;
        }
        proof {
            assert(full_moves(half_move).take(i as int) =~= full_moves(half_move));
        }
        r
    }

    /// The legal moves of the side to move, in a fixed order: by worker, then
    /// destination, then build cell.
    pub fn generate_moves(&self) -> (r: Vec<Move>)
        requires
            self@.wf(),
        ensures
            r@ == self@.legal_moves(),
            forall|mv: Move| #[trigger] r@.contains(mv) <==> self@.is_legal(mv),
    {
        let half_moves = self.generate_half_moves();
        let ghost p = self@;
        let mut r: Vec<Move> = Vec::new();
        let mut i: usize = 0;
        while i < half_moves.len()
            invariant
                i <= half_moves@.len(),
                p == self@,
                p.wf(),
                half_moves@ == p.half_moves(),
                r@ == p.moves_of_half_moves(half_moves@.take(i as int)),
            decreases half_moves.len() - i,
        {
            let hm = half_moves[i];
            proof {
                assert(half_moves@.take(i + 1).drop_last() =~= half_moves@.take(i as int));
            }
            if self.half_move_is_legal(hm).is_ok() {
                let full = self.generate_full_moves(hm);
                let ghost start = r@;
                let mut j: usize = 0;
                while j < full.len()
                    invariant
                        j <= full@.len(),
                        p == self@,
                        p.wf(),
                        full@ == full_moves(hm),
                        r@ == start + p.keep_legal(full@.take(j as int)),
                    decreases full.len() - j,
                {
                    let mv = full[j];
                    proof {
                        assert(full@.take(j + 1).drop_last() =~= full@.take(j as int));
                    }
                    if self.move_is_legal(mv).is_ok() {
                        r.push(mv);
                        proof {
                            assert(r@ =~= start + p.keep_legal(full@.take(j + 1)));
                        }
                    }
                    j += 1;
                }
                proof {
                    assert(full@.take(j as int) =~= full@);
                }
            } else {
                proof {
                    assert(r@ =~= r@ + p.moves_of_half_move(hm));
                }
            }
            i += 1;
        }
        proof {
            assert(half_moves@.take(i as int) =~= half_moves@);
            assert forall|mv: Move| #[trigger] r@.contains(mv) <==> p.is_legal(mv) by {
                if p.is_legal(mv) {
                    lemma_legal_moves_complete(p, mv);
                }
                if r@.contains(mv) {
                    let k = choose|k: int| 0 <= k < r@.len() && r@[k] == mv;
                    lemma_legal_moves_sound(p, k);
                }
            }
        }
        r
    }
}

} // verus!
