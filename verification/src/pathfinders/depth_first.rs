use super::best_first::{BestFirst, PosPrioritizer};
use super::{Grid, Pos, Vec2d};
use std::collections::VecDeque;
use vstd::prelude::*;

verus! {

/// Depth-first search: the entry discovered last is expanded first.
pub type DepthFirst = BestFirst<DepthFirstPrioritizer>;

/// Picks the back of the frontier.
pub struct DepthFirstPrioritizer;

impl PosPrioritizer for DepthFirstPrioritizer {
    open spec fn inv(&self, grid: &Grid, backtrace: &Vec2d<Option<Pos>>) -> bool {
        true
    }

    open spec fn choice(grid: &Grid, queue: Seq<Pos>, backtrace: Map<Pos, Option<Pos>>) -> int {
        queue.len() - 1
    }

    proof fn lemma_choice_in_range(
        grid: &Grid,
        queue: Seq<Pos>,
        backtrace: Map<Pos, Option<Pos>>,
    ) {
    }

    proof fn lemma_inv_grows(
        &self,
        grid: &Grid,
        before: &Vec2d<Option<Pos>>,
        after: &Vec2d<Option<Pos>>,
    ) {
    }

    fn new_prioritizer(_grid: &Grid) -> (prioritizer: Self) {
        Self
    }

    fn find_prioritized_pos(
        &mut self,
        queue: &VecDeque<Pos>,
        _backtrace: &Vec2d<Option<Pos>>,
    ) -> (index: usize) {
        queue.len() - 1
    }
}

} // verus!
