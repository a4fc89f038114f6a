use super::{adjacent, Grid, Pos};
use vstd::prelude::*;

verus! {

/// A route is a non-empty sequence of walkable cells in which each cell is
/// a neighbour of the one before it.
pub open spec fn is_route(grid: &Grid, path: Seq<Pos>) -> bool {
    &&& path.len() > 0
    &&& forall|i: int| 0 <= i < path.len() ==> grid.walkable(#[trigger] path[i])
    &&& forall|i: int| 0 <= i < path.len() - 1 ==> adjacent(#[trigger] path[i], path[i + 1])
}

/// `path` is a route that begins at `from` and ends at `to`.
pub open spec fn connects(grid: &Grid, path: Seq<Pos>, from: Pos, to: Pos) -> bool {
    &&& is_route(grid, path)
    &&& path[0] == from
    &&& path[path.len() - 1] == to
}

/// Some route leads from the grid's start cell to `pos`.
pub open spec fn reachable(grid: &Grid, pos: Pos) -> bool {
    exists|path: Seq<Pos>| #[trigger] connects(grid, path, grid.spec_start(), pos)
}

/// The start cell of a grid is reachable.
pub proof fn lemma_start_reachable(grid: &Grid)
    requires
        grid.wf(),
    ensures
        reachable(grid, grid.spec_start()),
{
    let path = seq![grid.spec_start()];
    assert(connects(grid, path, grid.spec_start(), grid.spec_start()));
}

/// A route extended by a walkable neighbour of its last cell is a route.
pub proof fn lemma_route_push(grid: &Grid, path: Seq<Pos>, from: Pos, to: Pos, next: Pos)
    requires
        connects(grid, path, from, to),
        grid.walkable(next),
        adjacent(to, next),
    ensures
        connects(grid, path.push(next), from, next),
{
    let longer = path.push(next);
    assert forall|i: int| 0 <= i < longer.len() implies grid.walkable(#[trigger] longer[i]) by {
        if i < path.len() {
            assert(longer[i] == path[i]);
        }
    }
    assert forall|i: int| 0 <= i < longer.len() - 1 implies adjacent(
        #[trigger] longer[i],
        longer[i + 1],
    ) by {
        if i < path.len() - 1 {
            assert(longer[i] == path[i]);
            assert(longer[i + 1] == path[i + 1]);
        }
    }
}

/// A walkable neighbour of a reachable cell is reachable.
pub proof fn lemma_reachable_step(grid: &Grid, pos: Pos, next: Pos)
    requires
        reachable(grid, pos),
        grid.walkable(next),
        adjacent(pos, next),
    ensures
        reachable(grid, next),
{
    let path = choose|path: Seq<Pos>| #[trigger] connects(grid, path, grid.spec_start(), pos);
    lemma_route_push(grid, path, grid.spec_start(), pos, next);
}

} // verus!
