use super::best_first::{neighbor, Search};
use super::breadth_first::BreadthFirstPrioritizer;
use super::dijkstra::{distance_costs, grid_cells, DijkstraPrioritizer};
use super::distance::{first_min, hops, lemma_first_min};
use super::route::connects;
use super::termination::{all_cells, lemma_cells_finite, outcome, run, strategy_pick};
use super::{adjacent, Grid, Pos};
use vstd::prelude::*;
use vstd::set_lib::lemma_len_subset;

verus! {

impl Search {
    /// A cell is done once it has been discovered and has left the
    /// frontier.
    pub open spec fn done(self, pos: Pos) -> bool {
        self.visited(pos) && !self.frontier.contains(pos)
    }

    /// The discovered cells.
    pub open spec fn seen(self) -> Set<Pos> {
        Set::new(|p: Pos| self.visited(p))
    }

    /// The depth of every discovered cell is below the number of
    /// discovered cells.
    pub open spec fn bounded(self) -> bool {
        forall|p: Pos| #[trigger] self.visited(p) ==> self.depth[p] < self.seen().len()
    }

    /// The frontier is in the order of depth.
    pub open spec fn sorted(self) -> bool {
        forall|i: int, j: int|
            0 <= i <= j < self.frontier.len() ==> self.depth[#[trigger] self.frontier[i]]
                <= self.depth[#[trigger] self.frontier[j]]
    }

    /// Every walkable neighbour of `pos` in a direction before the `count`-th
    /// is discovered, at most one hop deeper than `pos`.
    pub open spec fn explored(self, grid: &Grid, pos: Pos, count: int) -> bool {
        forall|k: int|
            0 <= k < count && grid.walkable(#[trigger] neighbor(pos, k)) ==> self.visited(
                neighbor(pos, k),
            ) && self.depth[neighbor(pos, k)] <= self.depth[pos] + 1
    }

    /// The state of a search that has always expanded the front of its
    /// frontier, between two steps: the frontier is in the order of depth
    /// and spans at most two depths, no cell that is done is deeper than a
    /// cell that waits, and around every cell that is done, other than the
    /// end cell, all walkable neighbours are discovered.
    pub open spec fn leveled(self, grid: &Grid) -> bool {
        &&& self.sorted()
        &&& forall|i: int|
            0 <= i < self.frontier.len() ==> self.depth[#[trigger] self.frontier[i]]
                <= self.depth[self.frontier[0]] + 1
        &&& forall|p: Pos, i: int|
            #[trigger] self.done(p) && 0 <= i < self.frontier.len() ==> self.depth[p]
                <= self.depth[#[trigger] self.frontier[i]]
        &&& forall|p: Pos| #[trigger] self.done(p) && p != grid.spec_end() ==> self.explored(grid, p, 4)
    }

    /// The state of such a search while it looks at the neighbours of
    /// `pos`, the cell that it took from the front, with the first `count`
    /// of them looked at.
    pub open spec fn leveled_at(self, grid: &Grid, pos: Pos, count: int) -> bool {
        &&& self.done(pos)
        &&& self.sorted()
        &&& forall|i: int|
            0 <= i < self.frontier.len() ==> self.depth[pos] <= self.depth[#[trigger] self.frontier[i]]
                <= self.depth[pos] + 1
        &&& forall|p: Pos| #[trigger] self.done(p) ==> self.depth[p] <= self.depth[pos]
        &&& forall|p: Pos|
            #[trigger] self.done(p) && p != grid.spec_end() && p != pos ==> self.explored(
                grid,
                p,
                4,
            )
        &&& self.explored(grid, pos, count)
    }

    /// A search begins leveled and bounded.
    pub proof fn lemma_seeded_leveled(grid: &Grid)
        requires
            grid.wf(),
        ensures
            Search::seeded(grid).leveled(grid),
            Search::seeded(grid).bounded(),
    {
        broadcast use vstd::set::group_set_axioms;

        let s = Search::seeded(grid);
        assert(s.frontier[0] == grid.spec_start());
        assert forall|p: Pos| !(#[trigger] s.done(p)) by {
            if s.visited(p) {
                assert(s.frontier[0] == p);
            }
        }
        assert(s.seen() =~= Set::<Pos>::empty().insert(grid.spec_start()));
    }

    /// The discovered cells are cells of the grid, so the depth of a
    /// discovered cell in a bounded search is below the number of cells.
    pub proof fn lemma_depth_below_cells(self, grid: &Grid, pos: Pos)
        requires
            self.wf(grid),
            self.bounded(),
            self.visited(pos),
        ensures
            self.depth[pos] < grid_cells(grid),
    {
        lemma_cells_finite(grid);
        assert(self.seen().subset_of(all_cells(grid)));
        lemma_len_subset(self.seen(), all_cells(grid));
    }

    /// Taking an entry out of the frontier keeps a search bounded.
    pub proof fn lemma_take_bounded(self, i: int)
        requires
            self.bounded(),
        ensures
            self.take(i).bounded(),
    {
        assert(self.take(i).seen() =~= self.seen());
        assert forall|p: Pos| #[trigger] self.take(i).visited(p) implies self.take(i).depth[p]
            < self.take(i).seen().len() by {
            assert(self.visited(p));
        }
    }

    /// Looking at one neighbour of a discovered cell keeps a search
    /// bounded.
    pub proof fn lemma_discover_bounded(self, grid: &Grid, pos: Pos, k: int)
        requires
            self.wf(grid),
            self.bounded(),
            self.visited(pos),
        ensures
            self.discover(grid, pos, k).bounded(),
    {
        broadcast use vstd::set::group_set_axioms;

        let next = neighbor(pos, k);
        let t = self.discover(grid, pos, k);
        if grid.walkable(next) && !self.visited(next) {
            lemma_cells_finite(grid);
            assert(self.seen().subset_of(all_cells(grid)));
            lemma_len_subset(self.seen(), all_cells(grid));
            assert(t.seen() =~= self.seen().insert(next));
            assert forall|p: Pos| #[trigger] t.visited(p) implies t.depth[p] < t.seen().len() by {
                if p != next {
                    assert(self.visited(p));
                }
            }
        }
    }

    /// Looking at the neighbours of a discovered cell keeps a search
    /// bounded.
    pub proof fn lemma_expand_bounded(self, grid: &Grid, pos: Pos, count: nat)
        requires
            self.wf(grid),
            self.bounded(),
            self.visited(pos),
        ensures
            self.expand(grid, pos, count).bounded(),
        decreases count,
    {
        if count > 0 {
            self.lemma_expand_bounded(grid, pos, (count - 1) as nat);
            self.lemma_expand_wf(grid, pos, (count - 1) as nat);
            self.expand(grid, pos, (count - 1) as nat).lemma_discover_bounded(grid, pos, count - 1);
        }
    }

    /// A step keeps a search bounded.
    pub proof fn lemma_step_bounded(self, grid: &Grid, i: int)
        requires
            self.wf(grid),
            self.bounded(),
            0 <= i < self.frontier.len(),
        ensures
            self.step(grid, i).bounded(),
    {
        let pos = self.frontier[i];
        self.lemma_take_wf(grid, i);
        self.lemma_take_bounded(i);
        if pos != grid.spec_end() {
            assert(self.visited(pos));
            self.take(i).lemma_expand_bounded(grid, pos, 4);
        }
    }

    /// Taking the front entry of a leveled search begins the look at its
    /// neighbours.
    pub proof fn lemma_take_front(self, grid: &Grid)
        requires
            self.wf(grid),
            self.leveled(grid),
            self.frontier.len() > 0,
        ensures
            self.take(0).leveled_at(grid, self.frontier[0], 0),
    {
        let pos = self.frontier[0];
        let t = self.take(0);
        assert(self.visited(pos));
        assert forall|i: int| 0 <= i < t.frontier.len() implies t.frontier[i] == self.frontier[i
            + 1] by {}
        assert(!t.frontier.contains(pos)) by {
            if t.frontier.contains(pos) {
                let i = choose|i: int| 0 <= i < t.frontier.len() && t.frontier[i] == pos;
                assert(self.frontier[i + 1] == self.frontier[0]);
            }
        }
        assert forall|p: Pos| #[trigger] t.done(p) implies (p == pos || self.done(p)) by {
            if p != pos && self.frontier.contains(p) {
                let i = choose|i: int| 0 <= i < self.frontier.len() && self.frontier[i] == p;
                assert(t.frontier[i - 1] == p);
            }
        }
        assert(t.sorted()) by {
            assert forall|i: int, j: int| 0 <= i <= j < t.frontier.len() implies t.depth[#[trigger] t.frontier[i]]
                <= t.depth[#[trigger] t.frontier[j]] by {
                assert(self.depth[self.frontier[i + 1]] <= self.depth[self.frontier[j + 1]]);
            }
        }
        assert forall|i: int| 0 <= i < t.frontier.len() implies t.depth[pos]
            <= t.depth[#[trigger] t.frontier[i]] <= t.depth[pos] + 1 by {
            assert(self.depth[self.frontier[0]] <= self.depth[self.frontier[i + 1]]);
            assert(self.depth[self.frontier[i + 1]] <= self.depth[self.frontier[0]] + 1);
        }
        assert forall|p: Pos| #[trigger] t.done(p) implies t.depth[p] <= t.depth[pos] by {
            if p != pos {
                assert(self.done(p));
                assert(self.depth[p] <= self.depth[self.frontier[0]]);
            }
        }
        assert forall|p: Pos| #[trigger]
            t.done(p) && p != grid.spec_end() && p != pos implies t.explored(grid, p, 4) by {
            assert(self.done(p));
            assert(self.explored(grid, p, 4));
        }
    }

    /// Looking at the next neighbour keeps the state of the look.
    pub proof fn lemma_discover_leveled(self, grid: &Grid, pos: Pos, k: int)
        requires
            self.wf(grid),
            self.leveled_at(grid, pos, k),
            0 <= k,
        ensures
            self.discover(grid, pos, k).leveled_at(grid, pos, k + 1),
    {
        let next = neighbor(pos, k);
        let t = self.discover(grid, pos, k);
        if grid.walkable(next) && !self.visited(next) {
            assert forall|i: int| 0 <= i < t.frontier.len() implies t.depth[pos]
                <= t.depth[#[trigger] t.frontier[i]] <= t.depth[pos] + 1 by {
                if i < self.frontier.len() {
                    assert(t.frontier[i] == self.frontier[i]);
                    assert(self.visited(self.frontier[i]));
                }
            }
            assert(t.sorted()) by {
                assert forall|i: int, j: int| 0 <= i <= j < t.frontier.len() implies t.depth[#[trigger] t.frontier[i]]
                    <= t.depth[#[trigger] t.frontier[j]] by {
                    if j < self.frontier.len() {
                        assert(t.frontier[i] == self.frontier[i]);
                        assert(t.frontier[j] == self.frontier[j]);
                        assert(self.visited(self.frontier[i]));
                        assert(self.visited(self.frontier[j]));
                        assert(self.depth[self.frontier[i]] <= self.depth[self.frontier[j]]);
                    }
                }
            }
            assert forall|p: Pos| #[trigger] t.done(p) implies self.done(p) && p != next by {
                assert(t.frontier[self.frontier.len() as int] == next);
                if self.frontier.contains(p) {
                    let i = choose|i: int| 0 <= i < self.frontier.len() && self.frontier[i] == p;
                    assert(t.frontier[i] == p);
                }
            }
            assert(t.done(pos)) by {
                if t.frontier.contains(pos) {
                    let i = choose|i: int| 0 <= i < t.frontier.len() && t.frontier[i] == pos;
                    if i < self.frontier.len() {
                        assert(self.frontier[i] == pos);
                    }
                }
            }
            assert forall|p: Pos| #[trigger]
                t.done(p) && p != grid.spec_end() && p != pos implies t.explored(grid, p, 4) by {
                assert(self.done(p));
                assert(self.explored(grid, p, 4));
                assert forall|j: int|
                    0 <= j < 4 && grid.walkable(#[trigger] neighbor(p, j)) implies t.visited(
                    neighbor(p, j),
                ) && t.depth[neighbor(p, j)] <= t.depth[p] + 1 by {
                    assert(self.visited(neighbor(p, j)));
                }
            }
            assert forall|j: int|
                0 <= j < k + 1 && grid.walkable(#[trigger] neighbor(pos, j)) implies t.visited(
                neighbor(pos, j),
            ) && t.depth[neighbor(pos, j)] <= t.depth[pos] + 1 by {
                if j < k {
                    assert(self.visited(neighbor(pos, j)));
                }
            }
        } else {
            assert forall|j: int|
                0 <= j < k + 1 && grid.walkable(#[trigger] neighbor(pos, j)) implies t.visited(
                neighbor(pos, j),
            ) && t.depth[neighbor(pos, j)] <= t.depth[pos] + 1 by {
                if j == k {
                    if self.frontier.contains(next) {
                        let i = choose|i: int|
                            0 <= i < self.frontier.len() && self.frontier[i] == next;
                        assert(self.depth[self.frontier[i]] <= self.depth[pos] + 1);
                    } else {
                        assert(self.done(next));
                    }
                }
            }
        }
    }

    /// Looking at the first `count` neighbours keeps the state of the look.
    pub proof fn lemma_expand_leveled(self, grid: &Grid, pos: Pos, count: nat)
        requires
            self.wf(grid),
            self.leveled_at(grid, pos, 0),
        ensures
            self.expand(grid, pos, count).leveled_at(grid, pos, count as int),
        decreases count,
    {
        if count > 0 {
            self.lemma_expand_leveled(grid, pos, (count - 1) as nat);
            assert(self.visited(pos));
            self.lemma_expand_wf(grid, pos, (count - 1) as nat);
            self.expand(grid, pos, (count - 1) as nat).lemma_discover_leveled(
                grid,
                pos,
                count - 1,
            );
        }
    }

    /// A step that takes the front of the frontier keeps a search leveled.
    pub proof fn lemma_step_leveled(self, grid: &Grid)
        requires
            self.wf(grid),
            self.leveled(grid),
            self.frontier.len() > 0,
        ensures
            self.step(grid, 0).leveled(grid),
    {
        let pos = self.frontier[0];
        self.lemma_take_front(grid);
        self.lemma_take_wf(grid, 0);
        let t = if pos == grid.spec_end() {
            self.take(0)
        } else {
            self.take(0).expand(grid, pos, 4)
        };
        if pos != grid.spec_end() {
            self.take(0).lemma_expand_leveled(grid, pos, 4);
        }
        assert(t == self.step(grid, 0));
        assert(t.leveled_at(grid, pos, if pos == grid.spec_end() { 0int } else { 4int }));
        assert forall|i: int| 0 <= i < t.frontier.len() implies t.depth[#[trigger] t.frontier[i]]
            <= t.depth[t.frontier[0]] + 1 by {
            assert(t.depth[pos] <= t.depth[t.frontier[0]]);
        }
        assert forall|p: Pos, i: int| #[trigger]
            t.done(p) && 0 <= i < t.frontier.len() implies t.depth[p]
            <= t.depth[#[trigger] t.frontier[i]] by {
            assert(t.depth[p] <= t.depth[pos]);
        }
    }
}

/// Of two neighbouring cells of a grid each is the neighbour of the other
/// in one of the four directions.
pub proof fn lemma_adjacent_direction(grid: &Grid, pos: Pos, next: Pos)
    requires
        grid.wf(),
        grid.in_bounds(pos),
        grid.in_bounds(next),
        adjacent(pos, next),
    ensures
        exists|k: int| 0 <= k < 4 && #[trigger] neighbor(pos, k) == next,
{
    if next.y == pos.y - 1 {
        assert(neighbor(pos, 0) == next);
    } else if next.y == pos.y + 1 {
        assert(neighbor(pos, 1) == next);
    } else if next.x == pos.x - 1 {
        assert(neighbor(pos, 2) == next);
    } else {
        assert(neighbor(pos, 3) == next);
    }
}

impl Search {
    /// In a leveled search whose front entry is the end cell, a route from
    /// the start that were shorter than the depth of the end cell would
    /// pass only through cells that are done, each no deeper than its place
    /// in the route.
    proof fn lemma_route_prefix(self, grid: &Grid, other: Seq<Pos>, i: int)
        requires
            self.wf(grid),
            self.leveled(grid),
            self.frontier.len() > 0,
            self.frontier[0] == grid.spec_end(),
            connects(grid, other, grid.spec_start(), grid.spec_end()),
            other.len() - 1 < self.depth[grid.spec_end()],
            0 <= i < other.len(),
        ensures
            self.visited(other[i]),
            self.depth[other[i]] <= i,
        decreases i,
    {
        if i > 0 {
            self.lemma_route_prefix(grid, other, i - 1);
            let before = other[i - 1];
            let here = other[i];
            assert(adjacent(before, other[i - 1 + 1]));
            assert(grid.walkable(before) && grid.walkable(here));
            if self.frontier.contains(before) {
                let j = choose|j: int| 0 <= j < self.frontier.len() && self.frontier[j] == before;
                assert(self.depth[self.frontier[0]] <= self.depth[self.frontier[j]]);
            }
            assert(self.done(before));
            assert(self.explored(grid, before, 4));
            lemma_adjacent_direction(grid, before, here);
            let k = choose|k: int| 0 <= k < 4 && #[trigger] neighbor(before, k) == here;
            assert(grid.walkable(neighbor(before, k)));
        }
    }

    /// In a leveled search whose front entry is the end cell, the chain of
    /// predecessors of the end cell is no longer than any route from start
    /// to end.
    pub proof fn lemma_front_shortest(self, grid: &Grid, other: Seq<Pos>)
        requires
            self.wf(grid),
            self.leveled(grid),
            self.frontier.len() > 0,
            self.frontier[0] == grid.spec_end(),
            connects(grid, other, grid.spec_start(), grid.spec_end()),
        ensures
            self.path_to(grid.spec_end()).len() <= other.len(),
    {
        assert(self.visited(self.frontier[0]));
        self.lemma_path_to(grid, grid.spec_end());
        if other.len() - 1 < self.depth[grid.spec_end()] {
            self.lemma_route_prefix(grid, other, other.len() - 1);
        }
    }

    /// The chain of predecessors of a discovered cell leads to the start in
    /// as many hops as the cell is deep.
    pub proof fn lemma_hops_depth(self, grid: &Grid, pos: Pos, fuel: nat)
        requires
            self.wf(grid),
            self.visited(pos),
            self.depth[pos] <= fuel,
        ensures
            hops(self.parent, grid.spec_start(), pos, fuel) == Some(self.depth[pos]),
        decreases fuel,
    {
        if pos != grid.spec_start() {
            let q = self.parent[pos].unwrap();
            assert(self.visited(q));
            self.lemma_hops_depth(grid, q, (fuel - 1) as nat);
        }
    }
}

/// A rule that takes the front of the frontier in every leveled state.
pub open spec fn level_order(grid: &Grid, pick: spec_fn(Search) -> int) -> bool {
    forall|s: Search|
        s.wf(grid) && s.leveled(grid) && s.bounded() && s.frontier.len() > 0 ==> #[trigger] pick(
            s,
        ) == 0
}

/// A search that is run by a rule of level order is leveled and bounded
/// after every step.
pub proof fn lemma_level_run(grid: &Grid, pick: spec_fn(Search) -> int, n: nat)
    requires
        grid.wf(),
        level_order(grid, pick),
    ensures
        run(grid, pick, n).wf(grid),
        run(grid, pick, n).leveled(grid),
        run(grid, pick, n).bounded(),
    decreases n,
{
    if n == 0 {
        Search::lemma_seeded_wf(grid);
        Search::lemma_seeded_leveled(grid);
    } else {
        let before = run(grid, pick, (n - 1) as nat);
        lemma_level_run(grid, pick, (n - 1) as nat);
        if before.frontier.len() > 0 {
            assert(pick(before) == 0);
            before.lemma_step(grid, 0);
            before.lemma_step_leveled(grid);
            before.lemma_step_bounded(grid, 0);
        }
    }
}

/// A path that a search in level order returns is a shortest one: no route
/// from start to end has fewer cells.
pub proof fn lemma_level_order_shortest(
    grid: &Grid,
    pick: spec_fn(Search) -> int,
    n: nat,
    other: Seq<Pos>,
)
    requires
        grid.wf(),
        level_order(grid, pick),
        outcome(grid, pick, n) is Ok,
        connects(grid, other, grid.spec_start(), grid.spec_end()),
    ensures
        outcome(grid, pick, n)->Ok_0.len() <= other.len(),
{
    let s = run(grid, pick, n);
    lemma_level_run(grid, pick, n);
    assert(pick(s) == 0);
    s.lemma_front_shortest(grid, other);
}

/// Breadth-first search is a search in level order.
pub proof fn lemma_breadth_first_level_order(grid: &Grid)
    ensures
        level_order(grid, strategy_pick::<BreadthFirstPrioritizer>(grid)),
{
}

/// Dijkstra's search with unit step costs is a search in level order: in a
/// leveled state the front of the frontier is the first entry of least
/// distance.
pub proof fn lemma_dijkstra_level_order(grid: &Grid)
    requires
        grid.wf(),
    ensures
        level_order(grid, strategy_pick::<DijkstraPrioritizer>(grid)),
{
    let pick = strategy_pick::<DijkstraPrioritizer>(grid);
    assert forall|s: Search|
        s.wf(grid) && s.leveled(grid) && s.bounded() && s.frontier.len() > 0 implies #[trigger] pick(
        s,
    ) == 0 by {
        let costs = distance_costs(s.frontier, s.parent, grid.spec_start(), grid_cells(grid));
        assert forall|i: int| 0 <= i < s.frontier.len() implies #[trigger] costs[i] == Some(
            s.depth[s.frontier[i]],
        ) by {
            assert(s.visited(s.frontier[i]));
            s.lemma_depth_below_cells(grid, s.frontier[i]);
            s.lemma_hops_depth(grid, s.frontier[i], grid_cells(grid));
        }
        lemma_first_min(costs);
        let best = first_min(costs);
        if best > 0 {
            assert(costs[0] == Some(s.depth[s.frontier[0]]));
            assert(costs[best] == Some(s.depth[s.frontier[best]]));
            assert(s.depth[s.frontier[0]] <= s.depth[s.frontier[best]]);
        }
    }
}

/// A path that breadth-first search returns has the least number of cells
/// of all routes from start to end.
pub proof fn lemma_breadth_first_shortest(grid: &Grid, n: nat, other: Seq<Pos>)
    requires
        grid.wf(),
        outcome(grid, strategy_pick::<BreadthFirstPrioritizer>(grid), n) is Ok,
        connects(grid, other, grid.spec_start(), grid.spec_end()),
    ensures
        outcome(grid, strategy_pick::<BreadthFirstPrioritizer>(grid), n)->Ok_0.len()
            <= other.len(),
{
    lemma_breadth_first_level_order(grid);
    lemma_level_order_shortest(grid, strategy_pick::<BreadthFirstPrioritizer>(grid), n, other);
}

/// A path that Dijkstra's search returns has the least number of cells of
/// all routes from start to end.
pub proof fn lemma_dijkstra_shortest(grid: &Grid, n: nat, other: Seq<Pos>)
    requires
        grid.wf(),
        outcome(grid, strategy_pick::<DijkstraPrioritizer>(grid), n) is Ok,
        connects(grid, other, grid.spec_start(), grid.spec_end()),
    ensures
        outcome(grid, strategy_pick::<DijkstraPrioritizer>(grid), n)->Ok_0.len() <= other.len(),
{
    lemma_dijkstra_level_order(grid);
    lemma_level_order_shortest(grid, strategy_pick::<DijkstraPrioritizer>(grid), n, other);
}

/// Breadth-first search and Dijkstra's search pass through the same
/// states.
pub proof fn lemma_dijkstra_is_breadth_first(grid: &Grid, n: nat)
    requires
        grid.wf(),
    ensures
        run(grid, strategy_pick::<DijkstraPrioritizer>(grid), n) == run(
            grid,
            strategy_pick::<BreadthFirstPrioritizer>(grid),
            n,
        ),
    decreases n,
{
    if n > 0 {
        lemma_dijkstra_is_breadth_first(grid, (n - 1) as nat);
        lemma_dijkstra_level_order(grid);
        lemma_level_run(grid, strategy_pick::<DijkstraPrioritizer>(grid), (n - 1) as nat);
    }
}

} // verus!
