use path_visualizer::pathfinders::a_star::AStar;
use path_visualizer::pathfinders::breadth_first::BreadthFirst;
use path_visualizer::pathfinders::depth_first::DepthFirst;
use path_visualizer::pathfinders::dijkstra::Dijkstra;
use path_visualizer::pathfinders::{
    Grid, PathFindAlgorithm, PathFindAlgorithmConstructor, PathFindAlgorithmStepResult,
    PathFindAlgorithms, PathFinder, Pos, Tile,
};

fn pos(x: i32, y: i32) -> Pos {
    Pos { x, y }
}

fn all_strategies() -> Vec<PathFindAlgorithms> {
    vec![
        PathFindAlgorithms::DepthFirst,
        PathFindAlgorithms::BreadthFirst,
        PathFindAlgorithms::Dijkstra,
        PathFindAlgorithms::AStar,
    ]
}

/// Steps a search until it ends; returns what the last step gave and how
/// many steps were made.
fn run(state: &mut PathFinder, limit: usize) -> (Result<Vec<Pos>, PathFindAlgorithmStepResult>, usize) {
    let mut steps = 0;
    loop {
        steps += 1;
        match state.next_step() {
            Err(PathFindAlgorithmStepResult::InProgress) => {
                assert!(steps <= limit, "no end after {} steps", limit);
            }
            other => return (other, steps),
        }
    }
}

fn assert_valid_path(grid: &Grid, path: &[Pos]) {
    assert_eq!(path.first(), Some(&grid.start()));
    assert_eq!(path.last(), Some(&grid.end()));
    for cell in path {
        assert_eq!(grid.tile_opt(*cell), Some(Tile::Open));
    }
    for pair in path.windows(2) {
        let dx = (pair[0].x - pair[1].x).abs();
        let dy = (pair[0].y - pair[1].y).abs();
        assert_eq!(dx + dy, 1);
    }
}

#[test]
fn breadth_first_finds_five_cell_path_on_open_three_by_three() {
    let grid = Grid::new(3, 3, pos(0, 0), pos(2, 2));
    let mut state = PathFindAlgorithms::BreadthFirst.make_state(grid.clone());
    let (result, steps) = run(&mut state, 9);
    let path = result.expect("a path exists");
    assert_eq!(path.len(), 5);
    assert_valid_path(&grid, &path);
    assert!(steps <= 9);
    assert_eq!(
        path,
        vec![pos(0, 0), pos(0, 1), pos(0, 2), pos(1, 2), pos(2, 2)]
    );
}

#[test]
fn depth_first_finds_valid_path_on_open_three_by_three() {
    let grid = Grid::new(3, 3, pos(0, 0), pos(2, 2));
    let mut state = PathFindAlgorithms::DepthFirst.make_state(grid.clone());
    let (result, steps) = run(&mut state, 9);
    let path = result.expect("a path exists");
    assert_valid_path(&grid, &path);
    assert!(path.len() >= 5);
    assert!(steps <= 9);
    assert_eq!(
        path,
        vec![pos(0, 0), pos(1, 0), pos(2, 0), pos(2, 1), pos(2, 2)]
    );
}

#[test]
fn every_strategy_ends_within_cell_count_on_open_three_by_three() {
    for strategy in all_strategies() {
        let grid = Grid::new(3, 3, pos(0, 0), pos(2, 2));
        let mut state = strategy.make_state(grid.clone());
        let (result, steps) = run(&mut state, 9);
        let path = result.expect("a path exists");
        assert_valid_path(&grid, &path);
        assert!(steps <= 9);
    }
}

#[test]
fn single_cell_grid_is_found_at_first_step() {
    for strategy in all_strategies() {
        let grid = Grid::new(1, 1, pos(0, 0), pos(0, 0));
        let mut state = strategy.make_state(grid);
        assert_eq!(state.next_step(), Ok(vec![pos(0, 0)]));
    }
}

#[test]
fn full_wall_row_gives_not_found_for_every_strategy() {
    for strategy in all_strategies() {
        let mut grid = Grid::new(3, 3, pos(0, 0), pos(2, 2));
        for x in 0..3 {
            grid.set_tile(pos(x, 1), Tile::Wall);
        }
        let mut state = strategy.make_state(grid);
        // three cells can be reached: (0,0), (1,0), (2,0)
        let (result, steps) = run(&mut state, 3);
        assert_eq!(result, Err(PathFindAlgorithmStepResult::NotFound));
        assert_eq!(steps, 4);
        assert!(!state.visited(pos(2, 2)));
        assert!(!state.visited(pos(0, 1)));
        assert!(state.visited(pos(2, 0)));
        // the search stays at its end
        assert_eq!(state.next_step(), Err(PathFindAlgorithmStepResult::NotFound));
    }
}

#[test]
fn start_is_visited_and_waiting_right_after_construction() {
    for strategy in all_strategies() {
        let grid = Grid::new(4, 3, pos(1, 2), pos(3, 0));
        let state = strategy.make_state(grid);
        assert!(state.visited(pos(1, 2)));
        assert!(state.in_queue(pos(1, 2)));
        assert!(!state.visited(pos(0, 0)));
        assert!(!state.in_queue(pos(3, 0)));
        assert!(!state.visited(pos(-1, 0)));
        assert!(!state.in_queue(pos(4, 3)));
    }
}

#[test]
fn queries_give_the_same_answer_when_repeated() {
    let grid = Grid::new(3, 3, pos(0, 0), pos(2, 2));
    let mut state = BreadthFirst::make_state(grid);
    assert_eq!(state.next_step(), Err(PathFindAlgorithmStepResult::InProgress));
    for y in -1..4 {
        for x in -1..4 {
            let first = (state.visited(pos(x, y)), state.in_queue(pos(x, y)));
            let second = (state.visited(pos(x, y)), state.in_queue(pos(x, y)));
            assert_eq!(first, second);
        }
    }
    // after one step from the corner: the corner is done, its two
    // neighbours wait
    assert!(state.visited(pos(0, 0)));
    assert!(!state.in_queue(pos(0, 0)));
    assert!(state.in_queue(pos(0, 1)));
    assert!(state.in_queue(pos(1, 0)));
    assert!(!state.visited(pos(1, 1)));
}

#[test]
fn neighbours_are_discovered_up_down_left_right() {
    let grid = Grid::new(3, 3, pos(1, 1), pos(0, 0));
    let mut state = BreadthFirst::make_state(grid);
    assert_eq!(state.next_step(), Err(PathFindAlgorithmStepResult::InProgress));
    // breadth-first takes them in the order of discovery
    let mut order = Vec::new();
    for _ in 0..4 {
        let before: Vec<Pos> = [pos(1, 0), pos(1, 2), pos(0, 1), pos(2, 1)]
            .into_iter()
            .filter(|p| state.in_queue(*p))
            .collect();
        assert_eq!(state.next_step(), Err(PathFindAlgorithmStepResult::InProgress));
        let after: Vec<Pos> = before.iter().copied().filter(|p| state.in_queue(*p)).collect();
        let taken: Vec<Pos> = before.into_iter().filter(|p| !after.contains(p)).collect();
        assert_eq!(taken.len(), 1);
        order.push(taken[0]);
    }
    assert_eq!(order, vec![pos(1, 0), pos(1, 2), pos(0, 1), pos(2, 1)]);
}

#[test]
fn breadth_first_and_dijkstra_return_the_same_shortest_path() {
    // a wall with one gap between start and end
    let mut grid = Grid::new(5, 4, pos(0, 0), pos(4, 3));
    for y in 0..3 {
        grid.set_tile(pos(2, y), Tile::Wall);
    }
    let mut breadth = BreadthFirst::make_state(grid.clone());
    let mut dijkstra = Dijkstra::make_state(grid.clone());
    loop {
        let a = breadth.next_step();
        let b = dijkstra.next_step();
        assert_eq!(a, b);
        if let Ok(path) = a {
            assert_valid_path(&grid, &path);
            // 3 down, 4 right: 7 moves
            assert_eq!(path.len(), 8);
            break;
        }
        assert_eq!(a, Err(PathFindAlgorithmStepResult::InProgress));
    }
}

#[test]
fn a_star_finds_shortest_path_around_wall() {
    let mut grid = Grid::new(5, 4, pos(0, 0), pos(4, 3));
    for y in 0..3 {
        grid.set_tile(pos(2, y), Tile::Wall);
    }
    let mut state = PathFindAlgorithms::AStar.make_state(grid.clone());
    let (result, _) = run(&mut state, 20);
    let path = result.expect("a path exists");
    assert_valid_path(&grid, &path);
    assert_eq!(path.len(), 8);
}

#[test]
fn a_star_path_is_valid_where_it_is_not_shortest() {
    // first discovery fixes a cell's predecessor, so a later, shorter way
    // to a cell is not taken up
    let mut grid = Grid::new(6, 3, pos(5, 1), pos(0, 0));
    grid.set_tile(pos(1, 0), Tile::Wall);
    grid.set_tile(pos(1, 1), Tile::Wall);
    grid.set_tile(pos(4, 1), Tile::Wall);
    let mut a_star = AStar::make_state(grid.clone());
    let mut breadth = BreadthFirst::make_state(grid.clone());
    let found = loop {
        match a_star.next_step() {
            Ok(path) => break path,
            Err(e) => assert_eq!(e, PathFindAlgorithmStepResult::InProgress),
        }
    };
    let shortest = loop {
        match breadth.next_step() {
            Ok(path) => break path,
            Err(e) => assert_eq!(e, PathFindAlgorithmStepResult::InProgress),
        }
    };
    assert_valid_path(&grid, &found);
    assert_valid_path(&grid, &shortest);
    assert_eq!(shortest.len(), 9);
    assert_eq!(found.len(), 11);
}

#[test]
fn depth_first_takes_the_entry_discovered_last() {
    let grid = Grid::new(3, 3, pos(1, 1), pos(0, 0));
    let mut state = DepthFirst::make_state(grid);
    assert_eq!(state.next_step(), Err(PathFindAlgorithmStepResult::InProgress));
    assert!(state.in_queue(pos(2, 1)));
    assert_eq!(state.next_step(), Err(PathFindAlgorithmStepResult::InProgress));
    // the right neighbour was discovered last and has been expanded
    assert!(!state.in_queue(pos(2, 1)));
    assert!(state.in_queue(pos(1, 0)));
    assert!(state.in_queue(pos(2, 0)));
    assert!(state.in_queue(pos(2, 2)));
}

#[test]
fn search_keeps_its_own_grid() {
    let mut grid = Grid::new(3, 1, pos(0, 0), pos(2, 0));
    let mut state = BreadthFirst::make_state(grid.clone());
    grid.set_tile(pos(1, 0), Tile::Wall);
    let mut result = state.next_step();
    while result == Err(PathFindAlgorithmStepResult::InProgress) {
        result = state.next_step();
    }
    assert_eq!(result, Ok(vec![pos(0, 0), pos(1, 0), pos(2, 0)]));
}

#[test]
fn steps_after_a_found_path_never_find_again() {
    let grid = Grid::new(2, 2, pos(0, 0), pos(1, 0));
    let mut state = BreadthFirst::make_state(grid);
    let mut found = 0;
    for _ in 0..10 {
        if state.next_step().is_ok() {
            found += 1;
        }
    }
    assert_eq!(found, 1);
    assert_eq!(state.next_step(), Err(PathFindAlgorithmStepResult::NotFound));
}
