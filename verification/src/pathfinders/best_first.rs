use super::route::connects;
use super::termination::{outcome, run, strategy_pick};
use super::{
    adjacent, reports, Grid, PathFindAlgorithm, PathFindAlgorithmConstructor,
    PathFindAlgorithmStepResult, Pos, Tile, Vec2d,
};
use std::collections::VecDeque;
use vstd::prelude::*;

verus! {

/// The `k`-th of the four unit steps, in the order in which a cell's
/// neighbours are visited: up, down, left, right.
pub open spec fn direction(k: int) -> Pos {
    if k == 0 {
        Pos { x: 0, y: -1i32 }
    } else if k == 1 {
        Pos { x: 0, y: 1 }
    } else if k == 2 {
        Pos { x: -1i32, y: 0 }
    } else {
        Pos { x: 1, y: 0 }
    }
}

/// The neighbour of `pos` in the `k`-th direction.
pub open spec fn neighbor(pos: Pos, k: int) -> Pos {
    Pos { x: (pos.x + direction(k).x) as i32, y: (pos.y + direction(k).y) as i32 }
}

/// The state of a search as mathematics: the frontier in the order in which
/// its cells were discovered, the predecessor of every discovered cell, and
/// for every discovered cell the number of hops that its chain of
/// predecessors takes back to the start.
pub struct Search {
    pub frontier: Seq<Pos>,
    pub parent: Map<Pos, Option<Pos>>,
    pub depth: Map<Pos, nat>,
}

impl Search {
    /// A cell is visited once it has a predecessor on record.
    pub open spec fn visited(self, pos: Pos) -> bool {
        self.parent.contains_key(pos) && self.parent[pos].is_some()
    }

    /// The state in which a search begins: only the start cell is
    /// discovered, it is its own predecessor, and it alone waits in the
    /// frontier.
    pub open spec fn seeded(grid: &Grid) -> Search {
        Search {
            frontier: seq![grid.spec_start()],
            parent: Map::new(
                |p: Pos| grid.in_bounds(p),
                |p: Pos|
                    if p == grid.spec_start() {
                        Some(p)
                    } else {
                        None
                    },
            ),
            depth: Map::<Pos, nat>::empty().insert(grid.spec_start(), 0nat),
        }
    }

    /// Every discovered cell is walkable and has a recorded depth; the
    /// start cell is its own predecessor at depth zero; every other
    /// discovered cell has a discovered neighbour as predecessor, one hop
    /// nearer to the start.
    pub open spec fn chained(self, grid: &Grid) -> bool {
        &&& self.parent.dom() =~= Set::new(|p: Pos| grid.in_bounds(p))
        &&& self.parent[grid.spec_start()] == Some(grid.spec_start())
        &&& self.depth.contains_key(grid.spec_start())
        &&& self.depth[grid.spec_start()] == 0
        &&& forall|p: Pos| #[trigger]
            self.visited(p) ==> grid.walkable(p) && self.depth.contains_key(p)
        &&& forall|p: Pos| #[trigger]
            self.visited(p) && p != grid.spec_start() ==> {
                let q = self.parent[p].unwrap();
                &&& self.visited(q)
                &&& adjacent(q, p)
                &&& self.depth[p] == self.depth[q] + 1
            }
    }

    /// Every frontier cell is discovered, and none waits twice.
    pub open spec fn frontier_ok(self) -> bool {
        &&& forall|i: int| 0 <= i < self.frontier.len() ==> self.visited(#[trigger] self.frontier[i])
        &&& self.frontier.no_duplicates()
    }

    /// The invariant of a search on `grid`.
    pub open spec fn wf(self, grid: &Grid) -> bool {
        &&& grid.wf()
        &&& self.chained(grid)
        &&& self.frontier_ok()
    }

    /// The state after the `k`-th neighbour of `pos` has been looked at: a
    /// walkable neighbour that was not discovered before joins the back of
    /// the frontier, with `pos` as its predecessor.
    pub open spec fn discover(self, grid: &Grid, pos: Pos, k: int) -> Search {
        let next = neighbor(pos, k);
        if grid.walkable(next) && !self.visited(next) {
            Search {
                frontier: self.frontier.push(next),
                parent: self.parent.insert(next, Some(pos)),
                depth: self.depth.insert(next, self.depth[pos] + 1),
            }
        } else {
            self
        }
    }

    /// The state after the first `count` neighbours of `pos` have been
    /// looked at, in order.
    pub open spec fn expand(self, grid: &Grid, pos: Pos, count: nat) -> Search
        decreases count,
    {
        if count == 0 {
            self
        } else {
            self.expand(grid, pos, (count - 1) as nat).discover(grid, pos, count - 1)
        }
    }

    /// The state after the frontier entry at index `i` has been taken out.
    pub open spec fn take(self, i: int) -> Search {
        Search { frontier: self.frontier.remove(i), parent: self.parent, depth: self.depth }
    }

    /// The state after one step that picks the frontier entry at index `i`:
    /// the entry leaves the frontier, and unless it is the end cell its
    /// four neighbours are looked at.
    pub open spec fn step(self, grid: &Grid, i: int) -> Search {
        let pos = self.frontier[i];
        if pos == grid.spec_end() {
            self.take(i)
        } else {
            self.take(i).expand(grid, pos, 4)
        }
    }

    /// The state after a step that picks index `i`: unchanged when the
    /// frontier is empty.
    pub open spec fn advance(self, grid: &Grid, i: int) -> Search {
        if self.frontier.len() == 0 {
            self
        } else {
            self.step(grid, i)
        }
    }

    /// The chain of predecessors that ends in `pos`, read from its `n`-th
    /// ancestor down to `pos` itself.
    pub open spec fn trace(self, pos: Pos, n: nat) -> Seq<Pos>
        decreases n,
    {
        if n == 0 {
            seq![pos]
        } else {
            self.trace(self.parent[pos].unwrap(), (n - 1) as nat).push(pos)
        }
    }

    /// The path from the start cell to a discovered cell along the chain of
    /// predecessors.
    pub open spec fn path_to(self, pos: Pos) -> Seq<Pos> {
        self.trace(pos, self.depth[pos])
    }
}

/// A cell inside a grid and its neighbour in any direction are one hop
/// apart.
pub proof fn lemma_neighbor_adjacent(grid: &Grid, pos: Pos, k: int)
    requires
        grid.wf(),
        grid.in_bounds(pos),
    ensures
        adjacent(pos, neighbor(pos, k)),
        neighbor(pos, k).x == pos.x + direction(k).x,
        neighbor(pos, k).y == pos.y + direction(k).y,
{
}

impl Search {
    /// A search begins in a state that meets the invariant.
    pub proof fn lemma_seeded_wf(grid: &Grid)
        requires
            grid.wf(),
        ensures
            Search::seeded(grid).wf(grid),
            Search::seeded(grid).visited(grid.spec_start()),
    {
        let s = Search::seeded(grid);
        assert(s.frontier[0] == grid.spec_start());
        assert(s.parent.dom() =~= Set::new(|p: Pos| grid.in_bounds(p)));
    }

    /// Taking an entry out of the frontier keeps the invariant.
    pub proof fn lemma_take_wf(self, grid: &Grid, i: int)
        requires
            self.wf(grid),
            0 <= i < self.frontier.len(),
        ensures
            self.take(i).wf(grid),
    {
        let t = self.take(i);
        assert forall|p: Pos| #[trigger] t.visited(p) implies grid.walkable(p)
            && t.depth.contains_key(p) by {
            assert(self.visited(p));
        }
        assert forall|p: Pos| #[trigger] t.visited(p) && p != grid.spec_start() implies {
            let q = t.parent[p].unwrap();
            &&& t.visited(q)
            &&& adjacent(q, p)
            &&& t.depth[p] == t.depth[q] + 1
        } by {
            assert(self.visited(p));
        }
        assert forall|j: int| 0 <= j < t.frontier.len() implies t.visited(
            #[trigger] t.frontier[j],
        ) by {
            if j < i {
                assert(t.frontier[j] == self.frontier[j]);
            } else {
                assert(t.frontier[j] == self.frontier[j + 1]);
            }
        }
        assert forall|a: int, b: int|
            0 <= a < t.frontier.len() && 0 <= b < t.frontier.len() && a != b implies t.frontier[a]
            != t.frontier[b] by {
            let a2 = if a < i { a } else { a + 1 };
            let b2 = if b < i { b } else { b + 1 };
            assert(t.frontier[a] == self.frontier[a2]);
            assert(t.frontier[b] == self.frontier[b2]);
        }
    }

    /// Looking at one neighbour of a discovered cell keeps the invariant,
    /// and changes nothing that was on record for a discovered cell.
    pub proof fn lemma_discover_wf(self, grid: &Grid, pos: Pos, k: int)
        requires
            self.wf(grid),
            self.visited(pos),
        ensures
            self.discover(grid, pos, k).wf(grid),
            self.discover(grid, pos, k).visited(pos),
            forall|p: Pos| #[trigger]
                self.visited(p) ==> self.discover(grid, pos, k).visited(p) && self.discover(
                    grid,
                    pos,
                    k,
                ).parent[p] == self.parent[p] && self.discover(grid, pos, k).depth[p]
                    == self.depth[p],
    {
        let next = neighbor(pos, k);
        let t = self.discover(grid, pos, k);
        lemma_neighbor_adjacent(grid, pos, k);
        if grid.walkable(next) && !self.visited(next) {
            assert(t.parent.dom() =~= Set::new(|p: Pos| grid.in_bounds(p)));
            assert forall|p: Pos| #[trigger] t.visited(p) implies grid.walkable(p)
                && t.depth.contains_key(p) by {
                if p != next {
                    assert(self.visited(p));
                }
            }
            assert forall|p: Pos| #[trigger] t.visited(p) && p != grid.spec_start() implies {
                let q = t.parent[p].unwrap();
                &&& t.visited(q)
                &&& adjacent(q, p)
                &&& t.depth[p] == t.depth[q] + 1
            } by {
                if p != next {
                    assert(self.visited(p));
                    let q = self.parent[p].unwrap();
                    assert(self.visited(q));
                } else {
                    assert(self.visited(pos));
                }
            }
            assert forall|j: int| 0 <= j < t.frontier.len() implies t.visited(
                #[trigger] t.frontier[j],
            ) by {
                if j < self.frontier.len() {
                    assert(t.frontier[j] == self.frontier[j]);
                    assert(self.visited(self.frontier[j]));
                }
            }
            assert forall|a: int, b: int|
                0 <= a < t.frontier.len() && 0 <= b < t.frontier.len() && a
                    != b implies t.frontier[a] != t.frontier[b] by {
                if a < self.frontier.len() {
                    assert(self.visited(self.frontier[a]));
                }
                if b < self.frontier.len() {
                    assert(self.visited(self.frontier[b]));
                }
            }
        }
    }

    /// Looking at the first `count` neighbours of a discovered cell keeps
    /// the invariant, and changes nothing that was on record for a
    /// discovered cell.
    pub proof fn lemma_expand_wf(self, grid: &Grid, pos: Pos, count: nat)
        requires
            self.wf(grid),
            self.visited(pos),
        ensures
            self.expand(grid, pos, count).wf(grid),
            self.expand(grid, pos, count).visited(pos),
            forall|p: Pos| #[trigger]
                self.visited(p) ==> self.expand(grid, pos, count).visited(p) && self.expand(
                    grid,
                    pos,
                    count,
                ).parent[p] == self.parent[p] && self.expand(grid, pos, count).depth[p]
                    == self.depth[p],
        decreases count,
    {
        if count > 0 {
            let before = self.expand(grid, pos, (count - 1) as nat);
            self.lemma_expand_wf(grid, pos, (count - 1) as nat);
            before.lemma_discover_wf(grid, pos, count - 1);
            assert forall|p: Pos| #[trigger] self.visited(p) implies self.expand(
                grid,
                pos,
                count,
            ).visited(p) && self.expand(grid, pos, count).parent[p] == self.parent[p]
                && self.expand(grid, pos, count).depth[p] == self.depth[p] by {
                assert(before.visited(p));
            }
        }
    }

    /// The chain of predecessors depends on the recorded predecessors
    /// alone.
    pub proof fn lemma_trace_frame(self, other: Search, pos: Pos, n: nat)
        requires
            self.parent == other.parent,
        ensures
            self.trace(pos, n) == other.trace(pos, n),
        decreases n,
    {
        if n > 0 {
            self.lemma_trace_frame(other, self.parent[pos].unwrap(), (n - 1) as nat);
        }
    }

    /// The chain of predecessors of a discovered cell is a route from the
    /// start cell to that cell, one cell longer than the cell's depth.
    pub proof fn lemma_path_to(self, grid: &Grid, pos: Pos)
        requires
            self.wf(grid),
            self.visited(pos),
        ensures
            connects(grid, self.path_to(pos), grid.spec_start(), pos),
            self.path_to(pos).len() == self.depth[pos] + 1,
        decreases self.depth[pos],
    {
        if pos == grid.spec_start() {
            assert(self.path_to(pos) =~= seq![pos]);
        } else {
            let q = self.parent[pos].unwrap();
            assert(self.visited(q));
            self.lemma_path_to(grid, q);
            assert(self.path_to(pos) == self.path_to(q).push(pos));
            super::route::lemma_route_push(grid, self.path_to(q), grid.spec_start(), q, pos);
        }
    }
}

/// A map that holds one entry for every cell of `grid`.
pub open spec fn covers<T>(grid: &Grid, map: &Vec2d<T>) -> bool {
    &&& map.wf()
    &&& map.spec_width() == grid.spec_width()
    &&& map.spec_height() == grid.spec_height()
}

/// `after` records every predecessor that `before` records, and possibly
/// more.
pub open spec fn grows(before: &Vec2d<Option<Pos>>, after: &Vec2d<Option<Pos>>) -> bool {
    &&& after.spec_width() == before.spec_width()
    &&& after.spec_height() == before.spec_height()
    &&& forall|p: Pos|
        before.has(p) && (#[trigger] before.cell(p)).is_some() ==> after.cell(p) == before.cell(p)
}

/// A rule that picks which frontier entry a search expands next.
pub trait PosPrioritizer: Sized {
    /// What this strategy keeps between calls is consistent with a search
    /// on `grid` whose predecessors so far are `backtrace`.
    spec fn inv(&self, grid: &Grid, backtrace: &Vec2d<Option<Pos>>) -> bool;

    /// The index that this strategy picks from a non-empty frontier.
    spec fn choice(grid: &Grid, queue: Seq<Pos>, backtrace: Map<Pos, Option<Pos>>) -> int;

    /// The pick is always an index into the frontier.
    proof fn lemma_choice_in_range(
        grid: &Grid,
        queue: Seq<Pos>,
        backtrace: Map<Pos, Option<Pos>>,
    )
        requires
            queue.len() > 0,
        ensures
            0 <= Self::choice(grid, queue, backtrace) < queue.len(),
    ;

    /// A strategy stays consistent when predecessors are recorded for
    /// cells that had none.
    proof fn lemma_inv_grows(
        &self,
        grid: &Grid,
        before: &Vec2d<Option<Pos>>,
        after: &Vec2d<Option<Pos>>,
    )
        requires
            self.inv(grid, before),
            covers(grid, before),
            covers(grid, after),
            grows(before, after),
        ensures
            self.inv(grid, after),
    ;

    /// Creates the strategy for a search on `grid`. It is consistent with
    /// every backtrace map of that grid's extents.
    fn new_prioritizer(grid: &Grid) -> (prioritizer: Self)
        requires
            grid.wf(),
        ensures
            forall|backtrace: Vec2d<Option<Pos>>|
                covers(grid, &backtrace) ==> #[trigger] prioritizer.inv(grid, &backtrace),
    ;

    /// Returns the index of the frontier entry to expand next. The frontier
    /// runs from the entry added first, at index 0, to the entry added
    /// last; it must not be empty.
    fn find_prioritized_pos(
        &mut self,
        queue: &VecDeque<Pos>,
        backtrace: &Vec2d<Option<Pos>>,
    ) -> (index: usize)
        requires
            queue@.len() > 0,
            exists|grid: Grid| #[trigger]
                old(self).inv(&grid, backtrace) && grid.wf() && covers(&grid, backtrace),
        ensures
            index < queue@.len(),
            forall|grid: Grid| #[trigger]
                old(self).inv(&grid, backtrace) && grid.wf() && covers(&grid, backtrace)
                    ==> final(self).inv(&grid, backtrace) && index == Self::choice(
                    &grid,
                    queue@,
                    backtrace@,
                ),
    ;
}

/// A search that expands one frontier entry per step, picked by the
/// strategy `P`.
pub struct BestFirst<P: PosPrioritizer> {
    grid: Grid,
    queue: VecDeque<Pos>,
    backtrace: Vec2d<Option<Pos>>,
    prioritizer: P,
    depth: Ghost<Map<Pos, nat>>,
}

/// The `k`-th of the four unit steps.
fn unit_step(k: usize) -> (d: Pos)
    requires
        k < 4,
    ensures
        d == direction(k as int),
{
    if k == 0 {
        Pos::up()
    } else if k == 1 {
        Pos::down()
    } else if k == 2 {
        Pos::left()
    } else {
        Pos::right()
    }
}

/// The cells of `cells` in the opposite order.
fn reversed(cells: &Vec<Pos>) -> (back: Vec<Pos>)
    ensures
        back@ == cells@.reverse(),
{
    let mut back: Vec<Pos> = Vec::new();
    let mut i: usize = cells.len();
    while i > 0
        invariant
            i <= cells@.len(),
            back@.len() == cells@.len() - i,
            forall|j: int| 0 <= j < back@.len() ==> back@[j] == cells@[cells@.len() - 1 - j],
        decreases i,
    {
        i -= 1;
        back.push(cells[i]);
    }
    proof {
        assert(back@ =~= cells@.reverse());
    }
    back
}

impl<P: PosPrioritizer> BestFirst<P> {
    /// The strategy is consistent with the state of the search.
    pub closed spec fn strategy_ok(&self) -> bool {
        &&& covers(&self.grid, &self.backtrace)
        &&& self.prioritizer.inv(&self.grid, &self.backtrace)
    }

    /// Puts the start cell into the frontier.
    fn init(&mut self)
        ensures
            final(self).queue@ == seq![old(self).grid.spec_start()] + old(self).queue@,
            final(self).grid == old(self).grid,
            final(self).backtrace == old(self).backtrace,
            final(self).prioritizer == old(self).prioritizer,
            final(self).depth == old(self).depth,
    {
        self.queue.push_front(self.grid.start());
    }

    /// Walks the chain of predecessors from `from` back to the start cell
    /// and returns the cells in the order from start to `from`.
    fn backtrack(&self, from: Pos) -> (result: Result<Vec<Pos>, PathFindAlgorithmStepResult>)
        requires
            self.search().wf(&self.grid),
            covers(&self.grid, &self.backtrace),
            self.search().visited(from),
        ensures
            result is Ok,
            result->Ok_0@ == self.search().path_to(from),
    {
        let ghost s = self.search();
        let mut collected: Vec<Pos> = Vec::new();
        let mut pos = from;
        while pos != self.grid.start()
            invariant
                s == self.search(),
                s.wf(&self.grid),
                covers(&self.grid, &self.backtrace),
                s.visited(pos),
                s.path_to(from) == s.path_to(pos) + collected@.reverse(),
            decreases s.depth[pos],
        {
            collected.push(pos);
            let ghost child = pos;
            pos =
            match self.backtrace.get(pos) {
                Some(Some(parent)) => *parent,
                _ => {
                    return Err(PathFindAlgorithmStepResult::NotFound);
                },
            };
            proof {
                assert(s.path_to(child) == s.path_to(pos).push(child));
                assert(collected@.reverse() =~= seq![child] + collected@.drop_last().reverse());
                assert(s.path_to(from) =~= s.path_to(pos) + collected@.reverse());
            }
        }
        collected.push(pos);
        let path = reversed(&collected);
        proof {
            assert(s.path_to(pos) =~= seq![pos]);
            assert(collected@.reverse() =~= seq![pos] + collected@.drop_last().reverse());
            assert(path@ =~= s.path_to(from));
        }
        Ok(path)
    }
}

impl<P: PosPrioritizer> PathFindAlgorithmConstructor for BestFirst<P> {
    /// Starts a search on `grid`: the start cell is discovered and waits
    /// in the frontier, nothing else is.
    fn make_state(grid: Grid) -> (state: Self)
        ensures
            state.wf(),
            state.grid() == grid,
            state.search() == Search::seeded(&grid),
            state.search().visited(grid.spec_start()),
    {
        proof {
            grid.lemma_cells_fit();
        }
        let height = grid.height();
        let width = grid.width();
        let start = grid.start();
        let mut backtrace = Vec2d::new(height as usize, width as usize, None);
        backtrace.set(start, Some(start));
        let prioritizer = P::new_prioritizer(&grid);
        let depth: Ghost<Map<Pos, nat>> = Ghost(Map::<Pos, nat>::empty().insert(start, 0nat));
        let mut state = Self { backtrace, queue: VecDeque::new(), prioritizer, grid, depth };
        state.init();
        proof {
            assert(state.queue@ =~= seq![start]);
            assert(state.backtrace@ =~= Search::seeded(&grid).parent);
            Search::lemma_seeded_wf(&grid);
        }
        state
    }
}

impl<P: PosPrioritizer> PathFindAlgorithm for BestFirst<P> {
    closed spec fn grid(&self) -> Grid {
        self.grid
    }

    closed spec fn search(&self) -> Search {
        Search { frontier: self.queue@, parent: self.backtrace@, depth: self.depth@ }
    }

    open spec fn wf(&self) -> bool {
        &&& self.search().wf(&self.grid())
        &&& self.strategy_ok()
    }

    open spec fn pick(&self) -> int {
        P::choice(&self.grid(), self.search().frontier, self.search().parent)
    }

    /// Beyond what holds of every search: a search that stood where `n`
    /// steps of its strategy lead stands where `n + 1` steps lead, and
    /// returns what the step after the first `n` reports.
    fn next_step(&mut self) -> (result: Result<Vec<Pos>, PathFindAlgorithmStepResult>)
        ensures
            forall|n: nat|
                old(self).search() == #[trigger] run(
                    &old(self).grid(),
                    strategy_pick::<P>(&old(self).grid()),
                    n,
                ) ==> final(self).search() == run(
                    &old(self).grid(),
                    strategy_pick::<P>(&old(self).grid()),
                    n + 1,
                ) && reports(
                    result,
                    outcome(&old(self).grid(), strategy_pick::<P>(&old(self).grid()), n),
                ),
    {
        // if the queue is empty, no more tiles to search exist
        if self.queue.len() == 0 {
            return Err(PathFindAlgorithmStepResult::NotFound);
        }
        let ghost before = self.search();
        let prioritized_pos_i = self.prioritizer.find_prioritized_pos(&self.queue, &self.backtrace);
        let pos = match self.queue.remove(prioritized_pos_i) {
            Some(pos) => pos,
            None => {
                return Err(PathFindAlgorithmStepResult::NotFound);
            },
        };
        proof {
            before.lemma_take_wf(&self.grid, prioritized_pos_i as int);
            assert(self.search() == before.take(prioritized_pos_i as int));
        }

        // if the tile is the end, try to find the path
        if pos == self.grid.end() {
            proof {
                assert(before.visited(before.frontier[prioritized_pos_i as int]));
                self.search().lemma_path_to(&self.grid, pos);
                before.lemma_trace_frame(self.search(), pos, before.depth[pos]);
            }
            return self.backtrack(pos);
        }
        let ghost taken = self.search();
        let mut k: usize = 0;
        while k < 4
            invariant
                k <= 4,
                self.grid == old(self).grid,
                self.search() == taken.expand(&self.grid, pos, k as nat),
                taken.wf(&self.grid),
                taken.visited(pos),
                covers(&self.grid, &self.backtrace),
                self.prioritizer.inv(&self.grid, &self.backtrace),
            decreases 4 - k,
        {
            proof {
                taken.lemma_expand_wf(&self.grid, pos, k as nat);
                lemma_neighbor_adjacent(&self.grid, pos, k as int);
            }
            let ghost current = self.search();
            let neighbor = pos + unit_step(k);
            let fresh = match self.backtrace.get(neighbor) {
                Some(Some(_)) => false,
                _ => true,
            };
            let open = match self.grid.tile_opt(neighbor) {
                Some(Tile::Open) => true,
                _ => false,
            };
            if fresh && open {
                let ghost earlier = self.backtrace;
                self.queue.push_back(neighbor);
                self.backtrace.set(neighbor, Some(pos));
                proof {
                    self.depth@ = self.depth@.insert(neighbor, self.depth@[pos] + 1);
                    assert forall|p: Pos|
                        earlier.has(p) && (#[trigger] earlier.cell(p)).is_some() implies self.backtrace.cell(
                        p,
                    ) == earlier.cell(p) by {
                        assert(earlier@[p] == earlier.cell(p));
                        assert(self.backtrace@[p] == self.backtrace.cell(p));
                    }
                    self.prioritizer.lemma_inv_grows(&self.grid, &earlier, &self.backtrace);
                }
            }
            proof {
                assert(self.search() == current.discover(&self.grid, pos, k as int));
            }
            k += 1;
        }
        proof {
            taken.lemma_expand_wf(&self.grid, pos, 4);
        }
        Err(PathFindAlgorithmStepResult::InProgress)
    }

    fn visited(&self, pos: Pos) -> (seen: bool) {
        match self.backtrace.get(pos) {
            Some(Some(_)) => true,
            _ => false,
        }
    }

    fn in_queue(&self, pos: Pos) -> (waiting: bool) {
        let n = self.queue.len();
        let mut i: usize = 0;
        while i < n
            invariant
                n == self.queue@.len(),
                i <= n,
                forall|j: int| 0 <= j < i ==> self.queue@[j] != pos,
            decreases n - i,
        {
            if self.queue[i] == pos {
                return true;
            }
            i += 1;
        }
        false
    }
}

} // verus!
