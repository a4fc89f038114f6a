use super::best_first::{lemma_neighbor_adjacent, neighbor, PosPrioritizer, Search};
use super::route::{connects, lemma_reachable_step, lemma_start_reachable, reachable};
use super::{step_outcome, Grid, PathFindAlgorithmStepResult, Pos};
use vstd::arithmetic::div_mod::lemma_fundamental_div_mod_converse;
use vstd::prelude::*;
use vstd::set_lib::{lemma_int_range, lemma_len_subset, lemma_map_size_bound, set_int_range};

verus! {

/// The cells of a grid.
pub open spec fn all_cells(grid: &Grid) -> Set<Pos> {
    Set::new(|p: Pos| grid.in_bounds(p))
}

/// The cells that some route from the start cell leads to.
pub open spec fn reachable_cells(grid: &Grid) -> Set<Pos> {
    Set::new(|p: Pos| reachable(grid, p))
}

/// The reachable cells that a search has not discovered yet.
pub open spec fn undiscovered(s: Search, grid: &Grid) -> Set<Pos> {
    Set::new(|p: Pos| reachable(grid, p) && !s.visited(p))
}

/// An upper bound on the number of expansions that a search still has
/// before it: the cells that wait in the frontier and the reachable cells
/// yet to be discovered.
pub open spec fn budget(s: Search, grid: &Grid) -> nat {
    s.frontier.len() + undiscovered(s, grid).len()
}

/// A grid has finitely many cells, at most width times height.
pub proof fn lemma_cells_finite(grid: &Grid)
    requires
        grid.wf(),
    ensures
        all_cells(grid).finite(),
        all_cells(grid).len() <= grid.spec_width() * grid.spec_height(),
{
    let w = grid.spec_width();
    let h = grid.spec_height();
    assert(0 <= w * h) by (nonlinear_arith)
        requires
            0 < w,
            0 < h,
    ;
    let indices = set_int_range(0, w * h);
    lemma_int_range(0, w * h);
    let cell = |i: int| Pos { x: (i % w) as i32, y: (i / w) as i32 };
    let image = indices.map(cell);
    lemma_map_size_bound(indices, image, cell);
    assert forall|p: Pos| all_cells(grid).contains(p) implies image.contains(p) by {
        let i = p.y * w + p.x;
        super::lemma_index_in_range(w, h, p.x as int, p.y as int);
        lemma_fundamental_div_mod_converse(i, w, p.y as int, p.x as int);
        assert(indices.contains(i));
        assert(cell(i) == p);
    }
    lemma_len_subset(all_cells(grid), image);
}

/// Only cells of the grid are reachable, so there are finitely many.
pub proof fn lemma_reachable_finite(grid: &Grid)
    requires
        grid.wf(),
    ensures
        reachable_cells(grid).finite(),
        reachable_cells(grid).len() <= all_cells(grid).len(),
        reachable_cells(grid).contains(grid.spec_start()),
{
    lemma_cells_finite(grid);
    assert forall|p: Pos| reachable_cells(grid).contains(p) implies all_cells(grid).contains(
        p,
    ) by {
        lemma_reachable_walkable(grid, p);
    }
    lemma_len_subset(reachable_cells(grid), all_cells(grid));
    lemma_start_reachable(grid);
}

/// A reachable cell is walkable.
pub proof fn lemma_reachable_walkable(grid: &Grid, pos: Pos)
    requires
        reachable(grid, pos),
    ensures
        grid.walkable(pos),
{
    let path = choose|path: Seq<Pos>| #[trigger] connects(grid, path, grid.spec_start(), pos);
    assert(grid.walkable(path[path.len() - 1]));
}

/// The cells yet to be discovered are finitely many.
pub proof fn lemma_undiscovered_finite(s: Search, grid: &Grid)
    requires
        grid.wf(),
    ensures
        undiscovered(s, grid).finite(),
        undiscovered(s, grid).len() <= reachable_cells(grid).len(),
{
    lemma_reachable_finite(grid);
    assert(undiscovered(s, grid).subset_of(reachable_cells(grid)));
    lemma_len_subset(undiscovered(s, grid), reachable_cells(grid));
}

impl Search {
    /// Every discovered cell is reachable.
    pub proof fn lemma_visited_reachable(self, grid: &Grid, pos: Pos)
        requires
            self.wf(grid),
            self.visited(pos),
        ensures
            reachable(grid, pos),
    {
        self.lemma_path_to(grid, pos);
        assert(connects(grid, self.path_to(pos), grid.spec_start(), pos));
    }

    /// A search begins with a budget of as many expansions as there are
    /// reachable cells.
    pub proof fn lemma_seeded_budget(grid: &Grid)
        requires
            grid.wf(),
        ensures
            budget(Search::seeded(grid), grid) == reachable_cells(grid).len(),
    {
        broadcast use vstd::set::group_set_axioms;

        let s = Search::seeded(grid);
        lemma_reachable_finite(grid);
        assert(undiscovered(s, grid) =~= reachable_cells(grid).remove(grid.spec_start())) by {
            assert forall|p: Pos| reachable(grid, p) implies grid.in_bounds(p) by {
                lemma_reachable_walkable(grid, p);
            }
        }
    }

    /// Taking an entry out of the frontier uses up one unit of the budget.
    pub proof fn lemma_take_budget(self, grid: &Grid, i: int)
        requires
            self.wf(grid),
            0 <= i < self.frontier.len(),
        ensures
            budget(self.take(i), grid) + 1 == budget(self, grid),
    {
        assert(undiscovered(self.take(i), grid) =~= undiscovered(self, grid));
    }

    /// Looking at one neighbour of a discovered cell leaves the budget as
    /// it is: a cell that joins the frontier is no longer undiscovered.
    pub proof fn lemma_discover_budget(self, grid: &Grid, pos: Pos, k: int)
        requires
            self.wf(grid),
            self.visited(pos),
        ensures
            budget(self.discover(grid, pos, k), grid) == budget(self, grid),
    {
        broadcast use vstd::set::group_set_axioms;

        let next = neighbor(pos, k);
        let t = self.discover(grid, pos, k);
        if grid.walkable(next) && !self.visited(next) {
            lemma_neighbor_adjacent(grid, pos, k);
            self.lemma_visited_reachable(grid, pos);
            lemma_reachable_step(grid, pos, next);
            lemma_undiscovered_finite(self, grid);
            assert(undiscovered(t, grid) =~= undiscovered(self, grid).remove(next));
        }
    }

    /// Looking at the neighbours of a discovered cell leaves the budget as
    /// it is.
    pub proof fn lemma_expand_budget(self, grid: &Grid, pos: Pos, count: nat)
        requires
            self.wf(grid),
            self.visited(pos),
        ensures
            budget(self.expand(grid, pos, count), grid) == budget(self, grid),
        decreases count,
    {
        if count > 0 {
            self.lemma_expand_budget(grid, pos, (count - 1) as nat);
            self.lemma_expand_wf(grid, pos, (count - 1) as nat);
            self.expand(grid, pos, (count - 1) as nat).lemma_discover_budget(grid, pos, count - 1);
        }
    }

    /// A step keeps the invariant and, when the frontier is not empty, uses
    /// up exactly one unit of the budget.
    pub proof fn lemma_step(self, grid: &Grid, i: int)
        requires
            self.wf(grid),
            0 <= i < self.frontier.len(),
        ensures
            self.step(grid, i).wf(grid),
            budget(self.step(grid, i), grid) + 1 == budget(self, grid),
    {
        let pos = self.frontier[i];
        self.lemma_take_wf(grid, i);
        self.lemma_take_budget(grid, i);
        if pos != grid.spec_end() {
            assert(self.visited(pos));
            self.take(i).lemma_expand_wf(grid, pos, 4);
            self.take(i).lemma_expand_budget(grid, pos, 4);
        }
    }
}

/// A rule that names an index into every non-empty frontier.
pub open spec fn valid_pick(grid: &Grid, pick: spec_fn(Search) -> int) -> bool {
    forall|s: Search|
        s.wf(grid) && s.frontier.len() > 0 ==> 0 <= #[trigger] pick(s) < s.frontier.len()
}

/// The state of a search on `grid` after `n` steps, each of which takes the
/// frontier entry that `pick` names.
pub open spec fn run(grid: &Grid, pick: spec_fn(Search) -> int, n: nat) -> Search
    decreases n,
{
    if n == 0 {
        Search::seeded(grid)
    } else {
        let before = run(grid, pick, (n - 1) as nat);
        before.advance(grid, pick(before))
    }
}

/// What the step after the first `n` steps reports.
pub open spec fn outcome(grid: &Grid, pick: spec_fn(Search) -> int, n: nat) -> Result<
    Seq<Pos>,
    PathFindAlgorithmStepResult,
> {
    step_outcome(run(grid, pick, n), grid, pick(run(grid, pick, n)))
}

/// The rule by which the strategy `P` picks.
pub open spec fn strategy_pick<P: PosPrioritizer>(grid: &Grid) -> spec_fn(Search) -> int {
    |s: Search| P::choice(grid, s.frontier, s.parent)
}

/// Every strategy names an index into every non-empty frontier.
pub proof fn lemma_strategy_valid<P: PosPrioritizer>(grid: &Grid)
    ensures
        valid_pick(grid, strategy_pick::<P>(grid)),
{
    let pick = strategy_pick::<P>(grid);
    assert forall|s: Search| s.wf(grid) && s.frontier.len() > 0 implies 0 <= #[trigger] pick(s)
        < s.frontier.len() by {
        P::lemma_choice_in_range(grid, s.frontier, s.parent);
    }
}

/// After any number of steps the invariant holds, and either the frontier
/// is empty or every step so far has used up one unit of the budget.
pub proof fn lemma_run(grid: &Grid, pick: spec_fn(Search) -> int, n: nat)
    requires
        grid.wf(),
        valid_pick(grid, pick),
    ensures
        run(grid, pick, n).wf(grid),
        run(grid, pick, n).frontier.len() == 0 || budget(run(grid, pick, n), grid) + n
            == reachable_cells(grid).len(),
    decreases n,
{
    if n == 0 {
        Search::lemma_seeded_wf(grid);
        Search::lemma_seeded_budget(grid);
    } else {
        let before = run(grid, pick, (n - 1) as nat);
        lemma_run(grid, pick, (n - 1) as nat);
        if before.frontier.len() > 0 {
            before.lemma_step(grid, pick(before));
        }
    }
}

/// Whatever the strategy, a search comes to an end: after as many steps as
/// the grid has reachable cells the frontier is empty, so that the next
/// step reports that there is no path.
pub proof fn lemma_search_ends(grid: &Grid, pick: spec_fn(Search) -> int, n: nat)
    requires
        grid.wf(),
        valid_pick(grid, pick),
        n >= reachable_cells(grid).len(),
    ensures
        run(grid, pick, n).frontier.len() == 0,
        outcome(grid, pick, n) == Err::<Seq<Pos>, PathFindAlgorithmStepResult>(
            PathFindAlgorithmStepResult::NotFound,
        ),
{
    lemma_run(grid, pick, n);
}

/// On a grid without a route from start to end no step returns a path,
/// whatever the strategy.
pub proof fn lemma_no_route_no_path(grid: &Grid, pick: spec_fn(Search) -> int, n: nat)
    requires
        grid.wf(),
        valid_pick(grid, pick),
        !reachable(grid, grid.spec_end()),
    ensures
        outcome(grid, pick, n) is Err,
{
    let s = run(grid, pick, n);
    lemma_run(grid, pick, n);
    if s.frontier.len() > 0 && s.frontier[pick(s)] == grid.spec_end() {
        assert(s.visited(s.frontier[pick(s)]));
        s.lemma_visited_reachable(grid, grid.spec_end());
    }
}

} // verus!
