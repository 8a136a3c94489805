use vstd::prelude::*;

use crate::flop::board_rep::{contains_square, get_neighbors, lemma_neighbor_table_bounds, neighbor_table};
use crate::flop::board_rep;
use crate::flop::search::converts;
use crate::flop::{converted_position, request_is_valid};

verus! {

/// The height of a cell as the players see it: 0 to 3 floors, or a dome.
#[derive(Clone, Copy, Debug, Default, PartialEq, Eq, Structural)]
pub enum Blocks {
    #[default]
    B0,
    B1,
    B2,
    B3,
    B4,
}

impl Blocks {
    pub open spec fn level(self) -> int {
        match self {
            Blocks::B0 => 0,
            Blocks::B1 => 1,
            Blocks::B2 => 2,
            Blocks::B3 => 3,
            Blocks::B4 => 4,
        }
    }

    /// A worker standing at this height may step onto `other`: at most one floor up,
    /// and never onto a dome. A worker never starts a move from height 3 (it has won)
    /// or from a dome.
    pub fn is_reachable(&self, other: &Blocks) -> (r: bool)
        requires
            self.level() <= 2,
        ensures
            r == (other.level() <= self.level() + 1 && other.level() < 4),
    {
        match (self, other) {
            (Blocks::B0, Blocks::B2) => false,
            (Blocks::B0, Blocks::B3) => false,
            (Blocks::B1, Blocks::B3) => false,
            (_, Blocks::B4) => false,
            (_, _) => true,
        }
    }

    /// The number of floors, a dome counting as 4.
    pub fn height(self) -> (r: usize)
        ensures
            r == self.level(),
    {
        match self {
            Blocks::B0 => 0,
            Blocks::B1 => 1,
            Blocks::B2 => 2,
            Blocks::B3 => 3,
            Blocks::B4 => 4,
        }
    }

    pub open spec fn raised_spec(self) -> Blocks {
        match self {
            Blocks::B0 => Blocks::B1,
            Blocks::B1 => Blocks::B2,
            Blocks::B2 => Blocks::B3,
            _ => Blocks::B4,
        }
    }

    /// The height with one more floor (or the dome) on top.
    pub fn raised(self) -> (r: Blocks)
        requires
            self.level() < 4,
        ensures
            r == self.raised_spec(),
            r.level() == self.level() + 1,
    {
        match self {
            Blocks::B0 => Blocks::B1,
            Blocks::B1 => Blocks::B2,
            Blocks::B2 => Blocks::B3,
            _ => Blocks::B4,
        }
    }
}

/// One of the two players.
#[derive(Clone, Copy, Debug, Default, PartialEq, Eq, Structural)]
pub enum Turn {
    #[default]
    P1,
    P2,
}

impl Turn {
    pub open spec fn other(self) -> Turn {
        match self {
            Turn::P1 => Turn::P2,
            Turn::P2 => Turn::P1,
        }
    }

    pub open spec fn index_of(self) -> int {
        match self {
            Turn::P1 => 0,
            Turn::P2 => 1,
        }
    }

    /// The other player.
    pub fn next(&self) -> (r: Turn)
        ensures
            r == self.other(),
    {
        match self {
            Turn::P1 => Turn::P2,
            Turn::P2 => Turn::P1,
        }
    }

    /// 0 for the first player, 1 for the second.
    pub fn to_index(self) -> (r: usize)
        ensures
            r == self.index_of(),
    {
        match self {
            Turn::P1 => 0,
            Turn::P2 => 1,
        }
    }

    /// The player numbered `value`, if there is one.
    pub fn from_index(value: usize) -> (r: Option<Turn>)
        ensures
            r is Some <==> value < 2,
            r matches Some(t) ==> t.index_of() == value,
    {
        if value == 0 {
            Some(Turn::P1)
        } else if value == 1 {
            Some(Turn::P2)
        } else {
            None
        }
    }
}

/// A worker, known by the player that owns it.
#[derive(Clone, Copy, Debug, PartialEq, Eq, Structural)]
pub struct Worker {
    pub turn: Turn,
}

/// A cell of the grid: rows A to E, columns 1 to 5.
#[derive(Clone, Copy, Debug, PartialEq, Eq, Structural)]
pub enum Square {
    A1,
    A2,
    A3,
    A4,
    A5,
    B1,
    B2,
    B3,
    B4,
    B5,
    C1,
    C2,
    C3,
    C4,
    C5,
    D1,
    D2,
    D3,
    D4,
    D5,
    E1,
    E2,
    E3,
    E4,
    E5,
}

impl Square {
    /// The cell's number, row by row from A1 = 0 to E5 = 24.
    pub open spec fn index_of(self) -> int {
        match self {
            Square::A1 => 0,
            Square::A2 => 1,
            Square::A3 => 2,
            Square::A4 => 3,
            Square::A5 => 4,
            Square::B1 => 5,
            Square::B2 => 6,
            Square::B3 => 7,
            Square::B4 => 8,
            Square::B5 => 9,
            Square::C1 => 10,
            Square::C2 => 11,
            Square::C3 => 12,
            Square::C4 => 13,
            Square::C5 => 14,
            Square::D1 => 15,
            Square::D2 => 16,
            Square::D3 => 17,
            Square::D4 => 18,
            Square::D5 => 19,
            Square::E1 => 20,
            Square::E2 => 21,
            Square::E3 => 22,
            Square::E4 => 23,
            Square::E5 => 24,
        }
    }

    /// The cell's number, row by row from A1 = 0 to E5 = 24.
    pub fn to_index(self) -> (r: usize)
        ensures
            r == self.index_of(),
            r < 25,
    {
        match self {
            Square::A1 => 0,
            Square::A2 => 1,
            Square::A3 => 2,
            Square::A4 => 3,
            Square::A5 => 4,
            Square::B1 => 5,
            Square::B2 => 6,
            Square::B3 => 7,
            Square::B4 => 8,
            Square::B5 => 9,
            Square::C1 => 10,
            Square::C2 => 11,
            Square::C3 => 12,
            Square::C4 => 13,
            Square::C5 => 14,
            Square::D1 => 15,
            Square::D2 => 16,
            Square::D3 => 17,
            Square::D4 => 18,
            Square::D5 => 19,
            Square::E1 => 20,
            Square::E2 => 21,
            Square::E3 => 22,
            Square::E4 => 23,
            Square::E5 => 24,
        }
    }

    /// The cell numbered `value`, if there is one.
    pub fn from_index(value: usize) -> (r: Option<Square>)
        ensures
            r is Some <==> value < 25,
            r matches Some(s) ==> s.index_of() == value,
    {
        match value {
            0 => Some(Square::A1),
            1 => Some(Square::A2),
            2 => Some(Square::A3),
            3 => Some(Square::A4),
            4 => Some(Square::A5),
            5 => Some(Square::B1),
            6 => Some(Square::B2),
            7 => Some(Square::B3),
            8 => Some(Square::B4),
            9 => Some(Square::B5),
            10 => Some(Square::C1),
            11 => Some(Square::C2),
            12 => Some(Square::C3),
            13 => Some(Square::C4),
            14 => Some(Square::C5),
            15 => Some(Square::D1),
            16 => Some(Square::D2),
            17 => Some(Square::D3),
            18 => Some(Square::D4),
            19 => Some(Square::D5),
            20 => Some(Square::E1),
            21 => Some(Square::E2),
            22 => Some(Square::E3),
            23 => Some(Square::E4),
            24 => Some(Square::E5),
            _ => None,
        }
    }

    /// The king-move neighbours of the cell, in increasing cell order.
    pub fn get_neighbours(&self) -> (r: Vec<Square>)
        ensures
            r@.len() == neighbor_table(self.index_of()).len(),
            forall|i: int| 0 <= i < r@.len() ==> #[trigger] r@[i].index_of() == neighbor_table(
                self.index_of(),
            )[i],
    {
        let numbers = get_neighbors(self.to_index());
        proof {
            lemma_neighbor_table_bounds(self.index_of());
        }
        let mut r: Vec<Square> = Vec::new();
        let mut i: usize = 0;
        while i < numbers.len()
            invariant
                i <= numbers@.len(),
                numbers@ == neighbor_table(self.index_of()),
                forall|k: int| 0 <= k < numbers@.len() ==> #[trigger] numbers@[k] < 25,
                r@.len() == i,
                forall|k: int| 0 <= k < i ==> #[trigger] r@[k].index_of() == numbers@[k],
            decreases numbers.len() - i,
        {
            assert(numbers@[i as int] < 25);
            let square = Square::from_index(numbers[i]).unwrap();
            r.push(square);
            i += 1;
        }
        r
    }

    /// All 25 cells, A1 to E5.
    pub fn squares() -> (r: Vec<Square>)
        ensures
            r@.len() == 25,
            forall|i: int| 0 <= i < 25 ==> #[trigger] r@[i].index_of() == i,
    {
        let mut r: Vec<Square> = Vec::new();
        let mut i: usize = 0;
        while i < 25
            invariant
                i <= 25,
                r@.len() == i,
                forall|k: int| 0 <= k < i ==> #[trigger] r@[k].index_of() == k,
            decreases 25 - i,
        {
            r.push(Square::from_index(i).unwrap());
            i += 1;
        }
        r
    }
}

/// A move as the players state it: a worker goes from `from` to `to` and builds on
/// `at`, which is absent when the move wins.
#[derive(Clone, Copy, Debug, PartialEq, Eq, Structural)]
pub struct Move {
    pub from: Square,
    pub to: Square,
    pub at: Option<Square>,
}

/// What an engine is asked: the position as the players see it and the time left on
/// the mover's clock, in nanoseconds.
#[derive(Clone, Copy, Debug)]
pub struct Request {
    pub blocks: [Blocks; 25],
    pub workers: [Option<Worker>; 25],
    pub turn: Turn,
    pub time_left: u64,
}

/// An engine's name and the range its evaluations fall in.
pub struct EngineInfo {
    pub name: String,
    pub eval_range: (isize, isize),
}

/// What an engine answers: its move (none when the side to move has no legal move,
/// which loses the game) and what it learned on the way. The time spent is in
/// nanoseconds.
#[derive(Debug)]
pub struct SearchResult {
    pub mv: Option<Move>,
    pub eval: Option<isize>,
    pub pv: Option<Vec<Move>>,
    pub depth_searched: Option<usize>,
    pub time_spent: Option<u64>,
}

/// A fixed-depth search on a compact position, for benchmarking.
pub struct BenchmarkRequest {
    pub position: board_rep::Board,
    pub max_depth: usize,
    pub debug: bool,
}

/// `r` answers `request` with a legal move of its position whenever there is one, and
/// with none otherwise (or when the request does not hold a valid position).
pub open spec fn answers_legally(request: Request, r: SearchResult) -> bool {
    let p = converted_position(request);
    &&& (r.mv is Some <==> (request_is_valid(request) && p.legal_moves().len() > 0))
    &&& (r.mv matches Some(ext) ==> exists|m: board_rep::Move|
        #[trigger] p.legal_moves().contains(m) && converts(p, m, ext))
}

/// The capability every engine offers.
pub trait Engine {
    fn get_info(&self) -> EngineInfo;

    fn get_search_result(&self, request: Request) -> (r: SearchResult)
        ensures
            answers_legally(request, r),
    ;

    fn get_move(&self, request: Request) -> (r: Option<Move>)
        ensures
            r is Some <==> (request_is_valid(request) && converted_position(request).legal_moves().len() > 0),
            r matches Some(ext) ==> exists|m: board_rep::Move|
                #[trigger] converted_position(request).legal_moves().contains(m) && converts(converted_position(request), m, ext),
    {
        self.get_search_result(request).mv
    }
}

/// The position as the players see it, with the winner once there is one.
#[derive(Clone, Copy, Debug)]
pub struct Board {
    pub blocks: [Blocks; 25],
    pub workers: [Option<Worker>; 25],
    pub turn: Turn,
    pub victory: Option<Turn>,
}

/// The worker on cell `s` can step onto its `k`-th neighbour.
pub open spec fn can_step(blocks: Seq<Blocks>, workers: Seq<Option<Worker>>, s: int, k: int) -> bool {
    let n = neighbor_table(s)[k] as int;
    &&& blocks[n].level() <= blocks[s].level() + 1
    &&& blocks[n].level() < 4
    &&& workers[n] is None
}

/// No worker of `turn` can step anywhere.
pub open spec fn smothered(blocks: Seq<Blocks>, workers: Seq<Option<Worker>>, turn: Turn) -> bool {
    forall|s: int, k: int|
        0 <= s < 25 && workers[s] == Some(Worker { turn }) && 0 <= k < neighbor_table(s).len()
            ==> !#[trigger] can_step(blocks, workers, s, k)
}

/// A worker stands on height 3 on cell `s`.
pub open spec fn on_top(blocks: Seq<Blocks>, workers: Seq<Option<Worker>>, s: int) -> bool {
    workers[s] is Some && blocks[s] == Blocks::B3
}

impl Board {
    /// While the game goes on, no worker stands higher than 2.
    pub open spec fn wf(&self) -> bool {
        self.victory is None ==> forall|i: int|
            0 <= i < 25 && #[trigger] self.workers@[i] is Some ==> self.blocks@[i].level() <= 2
    }

    /// `mv` can be played: it starts from a worker, steps at most one floor up onto a
    /// free neighbouring cell, and unless it wins builds on a cell that is free once
    /// the worker has left.
    pub open spec fn can_apply(&self, mv: Move) -> bool {
        let f = mv.from.index_of();
        let t = mv.to.index_of();
        &&& self.victory is None
        &&& self.workers@[f] is Some
        &&& self.workers@[t] is None
        &&& neighbor_table(f).contains(t as usize)
        &&& self.blocks@[t].level() <= self.blocks@[f].level() + 1
        &&& self.blocks@[t].level() < 4
        &&& self.blocks@[t] != Blocks::B3 ==> (mv.at matches Some(a) && a != mv.to && (a == mv.from
            || self.workers@[a.index_of()] is None) && self.blocks@[a.index_of()].level() < 4)
    }

    pub open spec fn moved_workers(&self, mv: Move) -> Seq<Option<Worker>> {
        self.workers@.update(mv.to.index_of(), self.workers@[mv.from.index_of()]).update(
            mv.from.index_of(),
            None,
        )
    }

    /// A new game: no building yet, the first player to move.
    pub fn new(workers_p1: [Square; 2], workers_p2: [Square; 2]) -> (r: Self)
        requires
            workers_p1[0] != workers_p1[1],
            workers_p1[0] != workers_p2[0],
            workers_p1[0] != workers_p2[1],
            workers_p1[1] != workers_p2[0],
            workers_p1[1] != workers_p2[1],
            workers_p2[0] != workers_p2[1],
        ensures
            r.wf(),
            forall|i: int| 0 <= i < 25 ==> #[trigger] r.blocks@[i] == Blocks::B0,
            r.workers@ == Seq::new(25, |i: int| {
                if i == workers_p1[0].index_of() || i == workers_p1[1].index_of() {
                    Some(Worker { turn: Turn::P1 })
                } else if i == workers_p2[0].index_of() || i == workers_p2[1].index_of() {
                    Some(Worker { turn: Turn::P2 })
                } else {
                    None
                }
            }),
            r.turn == Turn::P1,
            r.victory is None,
    {
        let mut workers: [Option<Worker>; 25] = [None; 25];
        workers[workers_p1[0].to_index()] = Some(Worker { turn: Turn::P1 });
        workers[workers_p1[1].to_index()] = Some(Worker { turn: Turn::P1 });
        workers[workers_p2[0].to_index()] = Some(Worker { turn: Turn::P2 });
        workers[workers_p2[1].to_index()] = Some(Worker { turn: Turn::P2 });
        let r = Board { blocks: [Blocks::B0; 25], workers, turn: Turn::P1, victory: None };
        proof {
            assert(r.workers@ =~= Seq::new(25, |i: int| {
                if i == workers_p1[0].index_of() || i == workers_p1[1].index_of() {
                    Some(Worker { turn: Turn::P1 })
                } else if i == workers_p2[0].index_of() || i == workers_p2[1].index_of() {
                    Some(Worker { turn: Turn::P2 })
                } else {
                    None
                }
            }));
        }
        r
    }

    /// The player to move.
    pub fn get_turn(&self) -> (r: &Turn)
        ensures
            *r == self.turn,
    {
        &self.turn
    }

    /// The winner, once the game is over.
    pub fn get_winner(&self) -> (r: &Option<Turn>)
        ensures
            *r == self.victory,
    {
        &self.victory
    }

    /// Tells whether `mv` can be played here.
    pub fn move_is_valid(&self, mv: &Move) -> (r: bool)
        ensures
            r == self.can_apply(*mv),
    {
        let f = mv.from.to_index();
        let t = mv.to.to_index();
        if self.victory.is_some() || self.workers[f].is_none() || self.workers[t].is_some() {
            return false;
        }
        let adjacent = contains_square(&get_neighbors(f), t);
        if !adjacent || self.blocks[t].height() > self.blocks[f].height() + 1 || self.blocks[t].height() >= 4 {
            return false;
        }
        if self.blocks[t] == Blocks::B3 {
            return true;
        }
        match mv.at {
            None => false,
            Some(a) => {
                a != mv.to && (a == mv.from || self.workers[a.to_index()].is_none())
                    && self.blocks[a.to_index()].height() < 4
            },
        }
    }

    /// Plays `mv`: moves the worker, declares its owner the winner if it now stands on
    /// height 3, and otherwise builds, passes the turn, and declares the mover the
    /// winner if the other side cannot move any worker.
    pub fn apply_move(&mut self, mv: Move)
        requires
            old(self).wf(),
            old(self).can_apply(mv),
        ensures
            final(self).wf(),
            final(self).workers@ == old(self).moved_workers(mv),
            old(self).blocks@[mv.to.index_of()] == Blocks::B3 ==> {
                &&& final(self).blocks@ == old(self).blocks@
                &&& final(self).turn == old(self).turn
                &&& final(self).victory == Some(old(self).workers@[mv.from.index_of()]->0.turn)
            },
            old(self).blocks@[mv.to.index_of()] != Blocks::B3 ==> {
                let a = mv.at->0.index_of();
                &&& final(self).blocks@ == old(self).blocks@.update(a, old(self).blocks@[a].raised_spec())
                &&& final(self).turn == old(self).turn.other()
                &&& final(self).victory == if smothered(final(self).blocks@, final(self).workers@, final(self).turn) {
                    Some(old(self).turn)
                } else {
                    None
                }
            },
    {
        let ghost before = *self;
        let Move { from, to, at } = mv;
        self.move_worker(from, to);
        proof {
            assert(self.workers@ =~= before.moved_workers(mv));
        }
        self.check_normal_victory(Ghost(to.index_of()));
        if self.victory.is_some() {
            return;
        }
        self.build(at.unwrap());
        self.next_turn();
        proof {
            assert forall|i: int| 0 <= i < 25 && #[trigger] self.workers@[i] is Some implies self.blocks@[i].level() <= 2 by {
                if i != to.index_of() {
                    assert(i != from.index_of());
                    assert(before.workers@[i] is Some);
                }
            }
        }
        self.check_smother_victory();
    }

    /// A request for the side to move, with `time_left` nanoseconds on its clock.
    pub fn get_request(&self, time_left: u64) -> (r: Request)
        ensures
            r.blocks == self.blocks,
            r.workers == self.workers,
            r.turn == self.turn,
            r.time_left == time_left,
    {
        Request { blocks: self.blocks, workers: self.workers, turn: self.turn, time_left }
    }

    fn build(&mut self, at: Square)
        requires
            old(self).workers@[at.index_of()] is None,
            old(self).blocks@[at.index_of()].level() < 4,
        ensures
            final(self).blocks@ == old(self).blocks@.update(
                at.index_of(),
                old(self).blocks@[at.index_of()].raised_spec(),
            ),
            final(self).workers == old(self).workers,
            final(self).turn == old(self).turn,
            final(self).victory == old(self).victory,
    {
        let i = at.to_index();
        self.blocks[i] = self.blocks[i].raised();
    }

    fn check_normal_victory(&mut self, moved_to: Ghost<int>)
        requires
            0 <= moved_to@ < 25,
            forall|i: int| 0 <= i < 25 && i != moved_to@ ==> !#[trigger] on_top(old(self).blocks@, old(self).workers@, i),
        ensures
            final(self).blocks == old(self).blocks,
            final(self).workers == old(self).workers,
            final(self).turn == old(self).turn,
            on_top(old(self).blocks@, old(self).workers@, moved_to@) ==> final(self).victory == Some(
                old(self).workers@[moved_to@]->0.turn,
            ),
            !on_top(old(self).blocks@, old(self).workers@, moved_to@) ==> final(self).victory == old(self).victory,
    {
        let mut square: usize = 0;
        while square < 25
            invariant
                square <= 25,
                self.blocks == old(self).blocks,
                self.workers == old(self).workers,
                self.turn == old(self).turn,
                self.victory == old(self).victory,
                0 <= moved_to@ < 25,
                forall|i: int| 0 <= i < 25 && i != moved_to@ ==> !#[trigger] on_top(old(self).blocks@, old(self).workers@, i),
                forall|i: int| 0 <= i < square ==> !#[trigger] on_top(self.blocks@, self.workers@, i),
            decreases 25 - square,
        {
            if let Some(worker) = self.workers[square] {
                if self.blocks[square] == Blocks::B3 {
                    assert(on_top(old(self).blocks@, old(self).workers@, square as int));
                    self.victory = Some(worker.turn);
                    return;
                }
            }
            square += 1;
        }
    }

    fn check_smother_victory(&mut self)
        requires
            forall|i: int|
                0 <= i < 25 && #[trigger] old(self).workers@[i] is Some ==> old(self).blocks@[i].level() <= 2,
        ensures
            final(self).blocks == old(self).blocks,
            final(self).workers == old(self).workers,
            final(self).turn == old(self).turn,
            final(self).victory == if smothered(old(self).blocks@, old(self).workers@, old(self).turn) {
                Some(old(self).turn.other())
            } else {
                old(self).victory
            },
    {
        let squares = Square::squares();
        let mut s: usize = 0;
        while s < 25
            invariant
                s <= 25,
                squares@.len() == 25,
                forall|i: int| 0 <= i < 25 ==> #[trigger] squares@[i].index_of() == i,
                self.blocks == old(self).blocks,
                self.workers == old(self).workers,
                self.turn == old(self).turn,
                self.victory == old(self).victory,
                forall|i: int| 0 <= i < 25 && #[trigger] self.workers@[i] is Some ==> self.blocks@[i].level() <= 2,
                forall|i: int, k: int|
                    0 <= i < s && self.workers@[i] == Some(Worker { turn: self.turn }) && 0 <= k
                        < neighbor_table(i).len() ==> !#[trigger] can_step(self.blocks@, self.workers@, i, k),
            decreases 25 - s,
        {
            let square = squares[s];
            if let Some(Worker { turn }) = self.workers[s] {
                if turn == self.turn {
                    let neighbours = get_neighbors(s);
                    proof {
                        lemma_neighbor_table_bounds(s as int);
                    }
                    let mut k: usize = 0;
                    while k < neighbours.len()
                        invariant
                            k <= neighbours@.len(),
                            neighbours@ == neighbor_table(s as int),
                            forall|j: int| 0 <= j < neighbours@.len() ==> #[trigger] neighbours@[j] < 25,
                            s < 25,
                            self.blocks == old(self).blocks,
                            self.workers == old(self).workers,
                            self.turn == old(self).turn,
                            self.victory == old(self).victory,
                            self.workers@[s as int] == Some(Worker { turn: self.turn }),
                            forall|i: int, k: int|
                                0 <= i < s && self.workers@[i] == Some(Worker { turn: self.turn }) && 0 <= k
                                    < neighbor_table(i).len() ==> !#[trigger] can_step(self.blocks@, self.workers@, i, k),
                            self.blocks@[s as int].level() <= 2,
                            forall|j: int| 0 <= j < k ==> !#[trigger] can_step(self.blocks@, self.workers@, s as int, j),
                        decreases neighbours.len() - k,
                    {
                        let n = neighbours[k];
                        assert(n < 25);
                        if self.blocks[s].is_reachable(&self.blocks[n]) && self.workers[n].is_none() {
                            assert(can_step(self.blocks@, self.workers@, s as int, k as int));
                            return;
                        }
                        k += 1;
                    }
                }
            }
            s += 1;
        }
        self.victory = Some(self.turn.next());
    }

    fn move_worker(&mut self, from: Square, to: Square)
        requires
            old(self).workers@[to.index_of()] is None,
            old(self).workers@[from.index_of()] is Some,
        ensures
            final(self).workers@ == old(self).workers@.update(
                to.index_of(),
                old(self).workers@[from.index_of()],
            ).update(from.index_of(), None),
            final(self).blocks == old(self).blocks,
            final(self).turn == old(self).turn,
            final(self).victory == old(self).victory,
    {
        let f = from.to_index();
        let t = to.to_index();
        self.workers[t] = self.workers[f];
        self.workers[f] = None;
    }

    fn next_turn(&mut self)
        ensures
            final(self).turn == old(self).turn.other(),
            final(self).blocks == old(self).blocks,
            final(self).workers == old(self).workers,
            final(self).victory == old(self).victory,
    {
        self.turn = self.turn.next();
    }
}

} // verus!
