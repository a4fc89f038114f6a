use super::{manhattan, Pos, Vec2d};
use vstd::prelude::*;

verus! {

/// Whether a map of optional values holds a value at `pos`.
pub open spec fn recorded<T>(map: Map<Pos, Option<T>>, pos: Pos) -> bool {
    map.contains_key(pos) && map[pos].is_some()
}

/// The number of hops that the chain of predecessors takes from `pos` back
/// to `start`, provided that it arrives within `fuel` hops; `None` when the
/// chain breaks off or is longer.
pub open spec fn hops(
    backtrace: Map<Pos, Option<Pos>>,
    start: Pos,
    pos: Pos,
    fuel: nat,
) -> Option<nat>
    decreases fuel,
{
    if pos == start {
        Some(0nat)
    } else if fuel == 0 || !recorded(backtrace, pos) {
        None
    } else {
        match hops(backtrace, start, backtrace[pos].unwrap(), (fuel - 1) as nat) {
            Some(n) => Some((n + 1) as nat),
            None => None,
        }
    }
}

/// The same walk with a table of distances already known: it ends at the
/// first cell of the chain that has an entry in `cache`, and adds the hops
/// walked so far to that entry. A total above `fuel` counts as no
/// distance.
pub open spec fn memo_hops(
    cache: Map<Pos, Option<u64>>,
    backtrace: Map<Pos, Option<Pos>>,
    start: Pos,
    pos: Pos,
    fuel: nat,
) -> Option<nat>
    decreases fuel,
{
    if recorded(cache, pos) {
        if cache[pos].unwrap() <= fuel {
            Some(cache[pos].unwrap() as nat)
        } else {
            None
        }
    } else if pos == start {
        Some(0nat)
    } else if fuel == 0 || !recorded(backtrace, pos) {
        None
    } else {
        match memo_hops(cache, backtrace, start, backtrace[pos].unwrap(), (fuel - 1) as nat) {
            Some(n) => Some((n + 1) as nat),
            None => None,
        }
    }
}

/// Every entry of `cache` is the number of hops from its cell back to
/// `start`, as `backtrace` and `fuel` give it.
pub open spec fn cache_sound(
    cache: Map<Pos, Option<u64>>,
    backtrace: Map<Pos, Option<Pos>>,
    start: Pos,
    fuel: nat,
) -> bool {
    forall|p: Pos| #[trigger]
        recorded(cache, p) ==> hops(backtrace, start, p, fuel) == Some(cache[p].unwrap() as nat)
}

/// A distance found within some fuel is at most that fuel.
pub proof fn lemma_hops_bounded(
    backtrace: Map<Pos, Option<Pos>>,
    start: Pos,
    pos: Pos,
    fuel: nat,
)
    ensures
        hops(backtrace, start, pos, fuel) is Some ==> hops(backtrace, start, pos, fuel).unwrap()
            <= fuel,
    decreases fuel,
{
    if pos != start && fuel > 0 && recorded(backtrace, pos) {
        lemma_hops_bounded(backtrace, start, backtrace[pos].unwrap(), (fuel - 1) as nat);
    }
}

/// A distance found within some fuel is found within any other fuel that
/// is not smaller than the distance, and within no smaller one.
pub proof fn lemma_hops_fuel(
    backtrace: Map<Pos, Option<Pos>>,
    start: Pos,
    pos: Pos,
    fuel: nat,
    other: nat,
)
    requires
        hops(backtrace, start, pos, fuel) is Some,
    ensures
        hops(backtrace, start, pos, other) == (if hops(backtrace, start, pos, fuel).unwrap()
            <= other {
            hops(backtrace, start, pos, fuel)
        } else {
            None
        }),
    decreases fuel,
{
    if pos != start {
        let parent = backtrace[pos].unwrap();
        if other > 0 {
            lemma_hops_fuel(backtrace, start, parent, (fuel - 1) as nat, (other - 1) as nat);
        }
    }
}

/// A distance found with a table is at most the fuel.
pub proof fn lemma_memo_bounded(
    cache: Map<Pos, Option<u64>>,
    backtrace: Map<Pos, Option<Pos>>,
    start: Pos,
    pos: Pos,
    fuel: nat,
)
    ensures
        memo_hops(cache, backtrace, start, pos, fuel) is Some ==> memo_hops(
            cache,
            backtrace,
            start,
            pos,
            fuel,
        ).unwrap() <= fuel,
    decreases fuel,
{
    if !recorded(cache, pos) && pos != start && fuel > 0 && recorded(backtrace, pos) {
        lemma_memo_bounded(cache, backtrace, start, backtrace[pos].unwrap(), (fuel - 1) as nat);
    }
}

/// The table after a walk from `pos` that found `found`: the distance is
/// entered for `pos` if the table has a place for it.
pub open spec fn entered(cache: Map<Pos, Option<u64>>, pos: Pos, found: Option<nat>) -> Map<
    Pos,
    Option<u64>,
> {
    if found is Some && cache.contains_key(pos) {
        cache.insert(pos, Some(found.unwrap() as u64))
    } else {
        cache
    }
}

/// Asking twice gives the same answer: a walk from a cell, after an
/// earlier walk from that cell has entered what it found, finds the same
/// distance, and the table stays as the earlier walk left it. No walk
/// changes an entry that the table held before.
pub proof fn lemma_distance_idempotent(
    cache: Map<Pos, Option<u64>>,
    backtrace: Map<Pos, Option<Pos>>,
    start: Pos,
    pos: Pos,
    fuel: nat,
)
    requires
        fuel <= u64::MAX,
    ensures
        ({
            let first = memo_hops(cache, backtrace, start, pos, fuel);
            let after = entered(cache, pos, first);
            &&& memo_hops(after, backtrace, start, pos, fuel) == first
            &&& entered(after, pos, first) == after
            &&& forall|p: Pos| #[trigger] recorded(cache, p) ==> after[p] == cache[p]
        }),
{
    let first = memo_hops(cache, backtrace, start, pos, fuel);
    let after = entered(cache, pos, first);
    lemma_memo_bounded(cache, backtrace, start, pos, fuel);
    assert(entered(after, pos, first) =~= after);
}

/// With a sound table the walk that uses the table finds what the plain
/// walk finds.
pub proof fn lemma_memo_sound(
    cache: Map<Pos, Option<u64>>,
    backtrace: Map<Pos, Option<Pos>>,
    start: Pos,
    pos: Pos,
    fuel: nat,
    limit: nat,
)
    requires
        cache_sound(cache, backtrace, start, limit),
        fuel <= limit,
    ensures
        memo_hops(cache, backtrace, start, pos, fuel) == hops(backtrace, start, pos, fuel),
    decreases fuel,
{
    if recorded(cache, pos) {
        lemma_hops_fuel(backtrace, start, pos, limit, fuel);
    } else if pos != start && fuel > 0 && recorded(backtrace, pos) {
        lemma_memo_sound(
            cache,
            backtrace,
            start,
            backtrace[pos].unwrap(),
            (fuel - 1) as nat,
            limit,
        );
    }
}

/// A distance stays what it is when predecessors are recorded for cells
/// that had none.
pub proof fn lemma_hops_grows(
    before: Map<Pos, Option<Pos>>,
    after: Map<Pos, Option<Pos>>,
    start: Pos,
    pos: Pos,
    fuel: nat,
)
    requires
        forall|p: Pos| #[trigger] recorded(before, p) ==> after.contains_key(p) && after[p] == before[p],
        hops(before, start, pos, fuel) is Some,
    ensures
        hops(after, start, pos, fuel) == hops(before, start, pos, fuel),
    decreases fuel,
{
    if pos != start {
        assert(recorded(before, pos));
        lemma_hops_grows(before, after, start, before[pos].unwrap(), (fuel - 1) as nat);
    }
}

/// Whether the cost `a` is smaller than the cost `b`, where no distance
/// counts as an infinite cost.
pub open spec fn cheaper(a: Option<nat>, b: Option<nat>) -> bool {
    a is Some && (b is None || a.unwrap() < b.unwrap())
}

/// The lowest index at which a sequence of costs is least; 0 for the empty
/// sequence.
pub open spec fn first_min(costs: Seq<Option<nat>>) -> int
    decreases costs.len(),
{
    if costs.len() <= 1 {
        0
    } else {
        let best = first_min(costs.drop_last());
        if cheaper(costs.last(), costs[best]) {
            costs.len() - 1
        } else {
            best
        }
    }
}

/// `first_min` is an index into the sequence, no cost is smaller than the
/// one found there, and every cost before it is larger.
pub proof fn lemma_first_min(costs: Seq<Option<nat>>)
    requires
        costs.len() > 0,
    ensures
        0 <= first_min(costs) < costs.len(),
        forall|j: int| 0 <= j < costs.len() ==> !cheaper(#[trigger] costs[j], costs[first_min(costs)]),
        forall|j: int|
            0 <= j < first_min(costs) ==> cheaper(costs[first_min(costs)], #[trigger] costs[j]),
    decreases costs.len(),
{
    if costs.len() > 1 {
        let shorter = costs.drop_last();
        lemma_first_min(shorter);
        let best = first_min(shorter);
        assert(shorter[best] == costs[best]);
        assert forall|j: int| 0 <= j < costs.len() implies !cheaper(
            #[trigger] costs[j],
            costs[first_min(costs)],
        ) by {
            if j < shorter.len() {
                assert(shorter[j] == costs[j]);
            }
        }
        assert forall|j: int| 0 <= j < first_min(costs) implies cheaper(
            costs[first_min(costs)],
            #[trigger] costs[j],
        ) by {
            assert(shorter[j] == costs[j]);
        }
    }
}

/// Whether the cost `a` is smaller than the cost `b`, where `None` is an
/// infinite cost.
pub fn is_cheaper(a: Option<u64>, b: Option<u64>) -> (smaller: bool)
    ensures
        smaller == (a is Some && (b is None || a.unwrap() < b.unwrap())),
{
    match a {
        Some(x) => match b {
            Some(y) => x < y,
            None => true,
        },
        None => false,
    }
}

/// Number of cells of a map, the limit on the length of a chain.
pub open spec fn cells<T>(map: &Vec2d<T>) -> nat {
    map.spec_width() * map.spec_height()
}

/// The exact number of hops from `pos` back to `grid_start` along the
/// chain of predecessors, or `None` when the chain does not arrive within
/// as many hops as the map has cells.
///
/// The walk stops at the first cell with an entry in
/// `cached_distances_to_start`. A distance that is found is entered there
/// for `pos`; no other entry changes.
pub fn distance_to_start(
    cached_distances_to_start: &mut Vec2d<Option<u64>>,
    grid_start: Pos,
    backtrace: &Vec2d<Option<Pos>>,
    pos: Pos,
) -> (distance: Option<u64>)
    requires
        old(cached_distances_to_start).wf(),
        backtrace.wf(),
    ensures
        final(cached_distances_to_start).wf(),
        final(cached_distances_to_start).spec_width() == old(
            cached_distances_to_start,
        ).spec_width(),
        final(cached_distances_to_start).spec_height() == old(
            cached_distances_to_start,
        ).spec_height(),
        distance is Some == memo_hops(
            old(cached_distances_to_start)@,
            backtrace@,
            grid_start,
            pos,
            cells(backtrace),
        ) is Some,
        distance is Some ==> distance.unwrap() == memo_hops(
            old(cached_distances_to_start)@,
            backtrace@,
            grid_start,
            pos,
            cells(backtrace),
        ).unwrap(),
        final(cached_distances_to_start)@ == (if distance is Some && old(
            cached_distances_to_start,
        ).has(pos) {
            old(cached_distances_to_start)@.insert(pos, distance)
        } else {
            old(cached_distances_to_start)@
        }),
        forall|p: Pos| #[trigger]
            recorded(old(cached_distances_to_start)@, p) ==> final(cached_distances_to_start)@[p]
                == old(cached_distances_to_start)@[p],
        cache_sound(old(cached_distances_to_start)@, backtrace@, grid_start, cells(backtrace))
            ==> cache_sound(
            final(cached_distances_to_start)@,
            backtrace@,
            grid_start,
            cells(backtrace),
        ) && (distance is Some == hops(backtrace@, grid_start, pos, cells(backtrace)) is Some) && (
        distance is Some ==> distance.unwrap() == hops(
            backtrace@,
            grid_start,
            pos,
            cells(backtrace),
        ).unwrap()),
{
    proof {
        backtrace.lemma_cells_fit();
    }
    let limit: usize = backtrace.width() * backtrace.height();
    let ghost cache = cached_distances_to_start@;
    let ghost whole = memo_hops(cache, backtrace@, grid_start, pos, limit as nat);
    proof {
        if cache_sound(cache, backtrace@, grid_start, limit as nat) {
            lemma_memo_sound(cache, backtrace@, grid_start, pos, limit as nat, limit as nat);
        }
    }
    let mut walked: usize = 0;
    let mut current_pos = pos;
    loop
        invariant
            walked <= limit,
            limit == cells(backtrace),
            backtrace.wf(),
            cached_distances_to_start.wf(),
            *cached_distances_to_start == *old(cached_distances_to_start),
            cache == cached_distances_to_start@,
            whole == memo_hops(cache, backtrace@, grid_start, pos, limit as nat),
            whole == (match memo_hops(
                cache,
                backtrace@,
                grid_start,
                current_pos,
                (limit - walked) as nat,
            ) {
                Some(n) => Some((n + walked) as nat),
                None => None,
            }),
            cache_sound(cache, backtrace@, grid_start, limit as nat) ==> whole == hops(
                backtrace@,
                grid_start,
                pos,
                limit as nat,
            ),
        decreases limit - walked,
    {
        let known = match cached_distances_to_start.get(current_pos) {
            Some(Some(d)) => Some(*d),
            _ => None,
        };
        let found = match known {
            Some(d) => {
                if d <= (limit - walked) as u64 {
                    Some(d + walked as u64)
                } else {
                    return None;
                }
            },
            None => {
                if current_pos == grid_start {
                    Some(walked as u64)
                } else {
                    None
                }
            },
        };
        match found {
            Some(total) => {
                cached_distances_to_start.set(pos, Some(total));
                proof {
                    let after = cached_distances_to_start@;
                    if cache_sound(cache, backtrace@, grid_start, limit as nat) {
                        assert forall|p: Pos| #[trigger] recorded(after, p) implies hops(
                            backtrace@,
                            grid_start,
                            p,
                            limit as nat,
                        ) == Some(after[p].unwrap() as nat) by {
                            if p != pos {
                                assert(recorded(cache, p));
                            }
                        }
                    }
                }
                return Some(total);
            },
            None => {},
        }
        if walked == limit {
            return None;
        }
        match backtrace.get(current_pos) {
            Some(Some(parent_pos)) => {
                current_pos = *parent_pos;
                walked += 1;
            },
            _ => {
                return None;
            },
        }
    }
}

/// The estimate of the distance between two cells that ignores walls: the
/// Manhattan distance.
pub fn guess_distance(pos1: Pos, pos2: Pos) -> (distance: u64)
    ensures
        distance == manhattan(pos1, pos2),
{
    let x_diff: i64 = pos2.x as i64 - pos1.x as i64;
    let y_diff: i64 = pos2.y as i64 - pos1.y as i64;
    let x_abs: i64 = if x_diff < 0 {
        -x_diff
    } else {
        x_diff
    };
    let y_abs: i64 = if y_diff < 0 {
        -y_diff
    } else {
        y_diff
    };
    (x_abs + y_abs) as u64
}

} // verus!
