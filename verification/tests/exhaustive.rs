use path_visualizer::pathfinders::{
    Grid, PathFindAlgorithm, PathFindAlgorithmStepResult, PathFindAlgorithms, Pos, Tile,
};

/// For every cell the least number of moves from the start, found by
/// relaxing all cells until nothing changes.
fn distances(grid: &Grid) -> Vec<Vec<Option<usize>>> {
    let w = grid.width() as usize;
    let h = grid.height() as usize;
    let mut dist = vec![vec![None; w]; h];
    let start = grid.start();
    dist[start.y as usize][start.x as usize] = Some(0);
    let mut changed = true;
    while changed {
        changed = false;
        for y in 0..h as i32 {
            for x in 0..w as i32 {
                if grid.tile(Pos { x, y }) != Tile::Open {
                    continue;
                }
                for (dx, dy) in [(0, -1), (0, 1), (-1, 0), (1, 0)] {
                    let (nx, ny) = (x + dx, y + dy);
                    if nx < 0 || ny < 0 || nx >= w as i32 || ny >= h as i32 {
                        continue;
                    }
                    if let Some(d) = dist[ny as usize][nx as usize] {
                        let here = &mut dist[y as usize][x as usize];
                        if here.map_or(true, |old| d + 1 < old) {
                            *here = Some(d + 1);
                            changed = true;
                        }
                    }
                }
            }
        }
    }
    dist
}

fn check_all(width: i32, height: i32) {
    let cells: Vec<Pos> = (0..height)
        .flat_map(|y| (0..width).map(move |x| Pos { x, y }))
        .collect();
    for &start in &cells {
        for &end in &cells {
            let others: Vec<Pos> = cells
                .iter()
                .copied()
                .filter(|c| *c != start && *c != end)
                .collect();
            for mask in 0u32..(1 << others.len()) {
                let mut grid = Grid::new(width, height, start, end);
                for (i, cell) in others.iter().enumerate() {
                    if mask >> i & 1 == 1 {
                        grid.set_tile(*cell, Tile::Wall);
                    }
                }
                let dist = distances(&grid);
                let reachable = dist.iter().flatten().filter(|d| d.is_some()).count();
                let shortest = dist[end.y as usize][end.x as usize];
                for strategy in [
                    PathFindAlgorithms::DepthFirst,
                    PathFindAlgorithms::BreadthFirst,
                    PathFindAlgorithms::Dijkstra,
                    PathFindAlgorithms::AStar,
                ] {
                    let mut state = strategy.make_state(grid.clone());
                    let mut steps = 0;
                    let result = loop {
                        steps += 1;
                        assert!(steps <= reachable + 1);
                        match state.next_step() {
                            Err(PathFindAlgorithmStepResult::InProgress) => {}
                            other => break other,
                        }
                    };
                    match (result, shortest) {
                        (Err(e), None) => {
                            assert_eq!(e, PathFindAlgorithmStepResult::NotFound);
                            assert_eq!(steps, reachable + 1);
                        }
                        (Ok(path), Some(least)) => {
                            assert_eq!(path[0], start);
                            assert_eq!(path[path.len() - 1], end);
                            for cell in &path {
                                assert_eq!(grid.tile_opt(*cell), Some(Tile::Open));
                            }
                            for pair in path.windows(2) {
                                let dx = (pair[0].x - pair[1].x).abs();
                                let dy = (pair[0].y - pair[1].y).abs();
                                assert_eq!(dx + dy, 1);
                            }
                            assert!(path.len() > least);
                            if strategy == PathFindAlgorithms::BreadthFirst
                                || strategy == PathFindAlgorithms::Dijkstra
                            {
                                assert_eq!(path.len(), least + 1);
                            }
                        }
                        (result, shortest) => {
                            panic!("{:?} where the least distance is {:?}", result, shortest)
                        }
                    }
                }
            }
        }
    }
}

#[test]
fn every_three_by_three_grid() {
    check_all(3, 3);
}

#[test]
fn every_four_by_two_grid() {
    check_all(4, 2);
}

#[test]
fn every_one_by_five_grid() {
    check_all(1, 5);
}
