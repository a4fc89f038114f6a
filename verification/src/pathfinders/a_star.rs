use super::best_first::{covers, BestFirst, PosPrioritizer};
use super::dijkstra::grid_cells;
use super::distance::{
    cache_sound, cells, distance_to_start, first_min, guess_distance, hops, is_cheaper,
    lemma_first_min, lemma_hops_bounded, lemma_hops_grows, recorded,
};
use super::{manhattan, Grid, Pos, Vec2d};
use std::collections::VecDeque;
use vstd::prelude::*;

verus! {

/// A* search: the entry with the least estimated length of a path through
/// it is expanded first.
pub type AStar = BestFirst<AStarPrioritizer>;

/// Picks the frontier entry for which the exact distance from the start
/// plus the Manhattan distance to the end is least; among equals, the one
/// discovered first.
pub struct AStarPrioritizer {
    grid_start: Pos,
    grid_end: Pos,
    cached_distances_from_start: Vec2d<Option<u64>>,
}

/// The estimated length of a path from `start` through `pos` to `end`: the
/// exact distance from the start plus the Manhattan distance to the end;
/// `None` where the chain of predecessors does not lead to the start.
pub open spec fn estimate(
    backtrace: Map<Pos, Option<Pos>>,
    start: Pos,
    end: Pos,
    pos: Pos,
    fuel: nat,
) -> Option<nat> {
    match hops(backtrace, start, pos, fuel) {
        Some(n) => Some(n + manhattan(pos, end)),
        None => None,
    }
}

/// For every frontier entry its estimate.
pub open spec fn estimate_costs(
    queue: Seq<Pos>,
    backtrace: Map<Pos, Option<Pos>>,
    start: Pos,
    end: Pos,
    fuel: nat,
) -> Seq<Option<nat>> {
    Seq::new(queue.len(), |i: int| estimate(backtrace, start, end, queue[i], fuel))
}

impl AStarPrioritizer {
    /// The start cell that the distances are measured from.
    pub closed spec fn start(&self) -> Pos {
        self.grid_start
    }

    /// The end cell that the estimates aim at.
    pub closed spec fn end(&self) -> Pos {
        self.grid_end
    }

    /// The distances found so far.
    pub closed spec fn cache(&self) -> Vec2d<Option<u64>> {
        self.cached_distances_from_start
    }
}

impl PosPrioritizer for AStarPrioritizer {
    open spec fn inv(&self, grid: &Grid, backtrace: &Vec2d<Option<Pos>>) -> bool {
        &&& self.start() == grid.spec_start()
        &&& self.end() == grid.spec_end()
        &&& self.cache().wf()
        &&& cache_sound(self.cache()@, backtrace@, grid.spec_start(), grid_cells(grid))
    }

    open spec fn choice(grid: &Grid, queue: Seq<Pos>, backtrace: Map<Pos, Option<Pos>>) -> int {
        first_min(
            estimate_costs(
                queue,
                backtrace,
                grid.spec_start(),
                grid.spec_end(),
                grid_cells(grid),
            ),
        )
    }

    proof fn lemma_choice_in_range(
        grid: &Grid,
        queue: Seq<Pos>,
        backtrace: Map<Pos, Option<Pos>>,
    ) {
        lemma_first_min(
            estimate_costs(
                queue,
                backtrace,
                grid.spec_start(),
                grid.spec_end(),
                grid_cells(grid),
            ),
        );
    }

    proof fn lemma_inv_grows(
        &self,
        grid: &Grid,
        before: &Vec2d<Option<Pos>>,
        after: &Vec2d<Option<Pos>>,
    ) {
        assert forall|p: Pos| #[trigger] recorded(before@, p) implies after@.contains_key(p)
            && after@[p] == before@[p] by {
            assert(before.cell(p).is_some());
        }
        assert forall|p: Pos| #[trigger] recorded(self.cache()@, p) implies hops(
            after@,
            grid.spec_start(),
            p,
            grid_cells(grid),
        ) == Some(self.cache()@[p].unwrap() as nat) by {
            lemma_hops_grows(before@, after@, grid.spec_start(), p, grid_cells(grid));
        }
    }

    fn new_prioritizer(grid: &Grid) -> (prioritizer: Self) {
        proof {
            grid.lemma_cells_fit();
        }
        let prioritizer = Self {
            grid_start: grid.start(),
            grid_end: grid.end(),
            cached_distances_from_start: Vec2d::new(
                grid.height() as usize,
                grid.width() as usize,
                None,
            ),
        };
        proof {
            assert forall|p: Pos| !(#[trigger] recorded(prioritizer.cache()@, p)) by {
                if prioritizer.cache().has(p) {
                    assert(cloned(None::<u64>, prioritizer.cache().cell(p)));
                }
            }
        }
        prioritizer
    }

    fn find_prioritized_pos(
        &mut self,
        queue: &VecDeque<Pos>,
        backtrace: &Vec2d<Option<Pos>>,
    ) -> (index: usize) {
        let ghost fuel = cells(backtrace);
        let ghost costs = estimate_costs(
            queue@,
            backtrace@,
            self.grid_start,
            self.grid_end,
            fuel,
        );
        proof {
            let grid = choose|grid: Grid| #[trigger]
                old(self).inv(&grid, backtrace) && grid.wf() && covers(&grid, backtrace);
            assert(fuel <= i32::MAX * i32::MAX) by (nonlinear_arith)
                requires
                    fuel == grid.spec_width() * grid.spec_height(),
                    0 < grid.spec_width() <= i32::MAX,
                    0 < grid.spec_height() <= i32::MAX,
            ;
        }
        let mut distance: Option<u64> = None;
        let mut prioritized_pos: usize = 0;
        let n = queue.len();
        let mut i: usize = 0;
        while i < n
            invariant
                n == queue@.len(),
                n > 0,
                i <= n,
                backtrace.wf(),
                fuel == cells(backtrace),
                fuel <= i32::MAX * i32::MAX,
                self.grid_start == old(self).grid_start,
                self.grid_end == old(self).grid_end,
                self.cached_distances_from_start.wf(),
                cache_sound(
                    self.cached_distances_from_start@,
                    backtrace@,
                    self.grid_start,
                    fuel,
                ),
                costs == estimate_costs(
                    queue@,
                    backtrace@,
                    self.grid_start,
                    self.grid_end,
                    fuel,
                ),
                i == 0 ==> prioritized_pos == 0 && distance is None,
                i > 0 ==> prioritized_pos == first_min(costs.take(i as int)),
                i > 0 ==> prioritized_pos < i,
                i > 0 ==> (distance is Some == costs[prioritized_pos as int] is Some),
                i > 0 && distance is Some ==> distance.unwrap()
                    == costs[prioritized_pos as int].unwrap(),
            decreases n - i,
        {
            let pos = queue[i];
            let pos_distance_start = distance_to_start(
                &mut self.cached_distances_from_start,
                self.grid_start,
                backtrace,
                pos,
            );
            // we can only guess the distance to the end as we don't know the path yet
            let pos_distance_end = guess_distance(pos, self.grid_end);
            proof {
                lemma_hops_bounded(backtrace@, self.grid_start, pos, fuel);
            }
            let pos_distance = match pos_distance_start {
                Some(from_start) => Some(from_start + pos_distance_end),
                None => None,
            };
            proof {
                let longer = costs.take(i + 1);
                assert(longer.drop_last() =~= costs.take(i as int));
                assert(longer.last() == costs[i as int]);
                if i > 0 {
                    assert(longer[prioritized_pos as int] == costs[prioritized_pos as int]);
                }
            }
            if is_cheaper(pos_distance, distance) {
                distance = pos_distance;
                prioritized_pos = i;
            }
            i += 1;
        }
        proof {
            assert(costs.take(n as int) =~= costs);
            assert forall|grid: Grid| #[trigger]
                old(self).inv(&grid, backtrace) && grid.wf() && covers(
                    &grid,
                    backtrace,
                ) implies self.inv(&grid, backtrace) && prioritized_pos == Self::choice(
                &grid,
                queue@,
                backtrace@,
            ) by {
                assert(grid_cells(&grid) == fuel);
            }
        }
        prioritized_pos
    }
}

} // verus!
