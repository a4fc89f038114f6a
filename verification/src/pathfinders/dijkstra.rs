use super::best_first::{covers, BestFirst, PosPrioritizer};
use super::distance::{
    cache_sound, cells, distance_to_start, first_min, hops, is_cheaper, lemma_hops_grows,
    lemma_first_min, recorded,
};
use super::{Grid, Pos, Vec2d};
use std::collections::VecDeque;
use vstd::prelude::*;

verus! {

/// Dijkstra's search with unit step costs: the entry nearest to the start
/// is expanded first.
pub type Dijkstra = BestFirst<DijkstraPrioritizer>;

/// Picks the frontier entry with the least exact distance from the start;
/// among equals, the one discovered first.
pub struct DijkstraPrioritizer {
    grid_start: Pos,
    cached_distances_from_start: Vec2d<Option<u64>>,
}

/// Number of cells of a grid.
pub open spec fn grid_cells(grid: &Grid) -> nat {
    (grid.spec_width() * grid.spec_height()) as nat
}

/// For every frontier entry its exact distance from `start`, `None` where
/// the chain of predecessors does not lead there.
pub open spec fn distance_costs(
    queue: Seq<Pos>,
    backtrace: Map<Pos, Option<Pos>>,
    start: Pos,
    fuel: nat,
) -> Seq<Option<nat>> {
    Seq::new(queue.len(), |i: int| hops(backtrace, start, queue[i], fuel))
}

impl DijkstraPrioritizer {
    /// The start cell that the distances are measured from.
    pub closed spec fn start(&self) -> Pos {
        self.grid_start
    }

    /// The distances found so far.
    pub closed spec fn cache(&self) -> Vec2d<Option<u64>> {
        self.cached_distances_from_start
    }
}

impl PosPrioritizer for DijkstraPrioritizer {
    open spec fn inv(&self, grid: &Grid, backtrace: &Vec2d<Option<Pos>>) -> bool {
        &&& self.start() == grid.spec_start()
        &&& self.cache().wf()
        &&& cache_sound(self.cache()@, backtrace@, grid.spec_start(), grid_cells(grid))
    }

    open spec fn choice(grid: &Grid, queue: Seq<Pos>, backtrace: Map<Pos, Option<Pos>>) -> int {
        first_min(distance_costs(queue, backtrace, grid.spec_start(), grid_cells(grid)))
    }

    proof fn lemma_choice_in_range(
        grid: &Grid,
        queue: Seq<Pos>,
        backtrace: Map<Pos, Option<Pos>>,
    ) {
        lemma_first_min(distance_costs(queue, backtrace, grid.spec_start(), grid_cells(grid)));
    }

    proof fn lemma_inv_grows(
        &self,
        grid: &Grid,
        before: &Vec2d<Option<Pos>>,
        after: &Vec2d<Option<Pos>>,
    ) {
        assert forall|p: Pos| #[trigger] recorded(before@, p) implies after@.contains_key(p)
            && after@[p] == before@[p] by {
            assert(before.cell(p).is_some());
        }
        assert forall|p: Pos| #[trigger] recorded(self.cache()@, p) implies hops(
            after@,
            grid.spec_start(),
            p,
            grid_cells(grid),
        ) == Some(self.cache()@[p].unwrap() as nat) by {
            lemma_hops_grows(before@, after@, grid.spec_start(), p, grid_cells(grid));
        }
    }

    fn new_prioritizer(grid: &Grid) -> (prioritizer: Self) {
        proof {
            grid.lemma_cells_fit();
        }
        let prioritizer = Self {
            grid_start: grid.start(),
            cached_distances_from_start: Vec2d::new(
                grid.height() as usize,
                grid.width() as usize,
                None,
            ),
        };
        proof {
            assert forall|p: Pos| !(#[trigger] recorded(prioritizer.cache()@, p)) by {
                if prioritizer.cache().has(p) {
                    assert(cloned(None::<u64>, prioritizer.cache().cell(p)));
                }
            }
        }
        prioritizer
    }

    fn find_prioritized_pos(
        &mut self,
        queue: &VecDeque<Pos>,
        backtrace: &Vec2d<Option<Pos>>,
    ) -> (index: usize) {
        let ghost fuel = cells(backtrace);
        let ghost costs = distance_costs(queue@, backtrace@, self.grid_start, fuel);
        let mut distance: Option<u64> = None;
        let mut prioritized_pos: usize = 0;
        let n = queue.len();
        let mut i: usize = 0;
        while i < n
            invariant
                n == queue@.len(),
                n > 0,
                i <= n,
                backtrace.wf(),
                fuel == cells(backtrace),
                self.grid_start == old(self).grid_start,
                self.cached_distances_from_start.wf(),
                cache_sound(
                    self.cached_distances_from_start@,
                    backtrace@,
                    self.grid_start,
                    fuel,
                ),
                costs == distance_costs(queue@, backtrace@, self.grid_start, fuel),
                i == 0 ==> prioritized_pos == 0 && distance is None,
                i > 0 ==> prioritized_pos == first_min(costs.take(i as int)),
                i > 0 ==> prioritized_pos < i,
                i > 0 ==> (distance is Some == costs[prioritized_pos as int] is Some),
                i > 0 && distance is Some ==> distance.unwrap()
                    == costs[prioritized_pos as int].unwrap(),
            decreases n - i,
        {
            let pos_distance = distance_to_start(
                &mut self.cached_distances_from_start,
                self.grid_start,
                backtrace,
                queue[i],
            );
            proof {
                let longer = costs.take(i + 1);
                assert(longer.drop_last() =~= costs.take(i as int));
                assert(longer.last() == costs[i as int]);
                if i > 0 {
                    assert(longer[prioritized_pos as int] == costs[prioritized_pos as int]);
                }
            }
            if is_cheaper(pos_distance, distance) {
                distance = pos_distance;
                prioritized_pos = i;
            }
            i += 1;
        }
        proof {
            assert(costs.take(n as int) =~= costs);
            assert forall|grid: Grid| #[trigger]
                old(self).inv(&grid, backtrace) && grid.wf() && covers(
                    &grid,
                    backtrace,
                ) implies self.inv(&grid, backtrace) && prioritized_pos == Self::choice(
                &grid,
                queue@,
                backtrace@,
            ) by {
                assert(grid_cells(&grid) == fuel);
            }
        }
        prioritized_pos
    }
}

} // verus!
