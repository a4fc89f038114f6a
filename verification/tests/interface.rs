use path_visualizer::pathfinders::{Grid, PathFindAlgorithms, Pos, Tile};
use path_visualizer::ui::grid::dom::{gen_2d_iter, DOMGridComponent, DragState, GridMsg, Reaction};
use path_visualizer::ui::grid::webgl2::Pointer;
use path_visualizer::ui::grid::{
    tile_class, tile_look, tile_rgb, toggled, GridEvent, GridRenderMode, TileLook,
};
use path_visualizer::ui::options::{
    grid_renderer_from_str, grid_renderer_str, path_finder_from_str, path_finder_str,
    update_start_end, GridOptions,
};

fn pos(x: i32, y: i32) -> Pos {
    Pos { x, y }
}

#[test]
fn default_options_are_ten_by_ten() {
    let options = GridOptions::default();
    assert_eq!(options.rows, 10);
    assert_eq!(options.columns, 10);
    assert_eq!(options.start_pos, pos(0, 0));
    assert_eq!(options.end_pos, pos(9, 9));
}

#[test]
fn grid_from_default_options() {
    let grid = Grid::from_options(GridOptions::default()).unwrap();
    assert_eq!(grid.width(), 10);
    assert_eq!(grid.height(), 10);
    assert_eq!(grid.start(), pos(0, 0));
    assert_eq!(grid.end(), pos(9, 9));
    assert_eq!(grid.tile(pos(5, 5)), Tile::Open);
}

#[test]
fn grid_from_options_takes_rows_as_width() {
    let options = GridOptions { rows: 2, columns: 5, start_pos: pos(1, 4), end_pos: pos(0, 0) };
    let grid = Grid::from_options(options).unwrap();
    assert_eq!(grid.width(), 2);
    assert_eq!(grid.height(), 5);
    assert_eq!(grid.start(), pos(1, 4));
}

#[test]
fn grid_from_options_refuses_what_is_no_grid() {
    let good = GridOptions { rows: 2, columns: 2, start_pos: pos(0, 0), end_pos: pos(1, 1) };
    assert!(Grid::from_options(good).is_some());
    assert!(Grid::from_options(GridOptions { rows: 0, ..good }).is_none());
    assert!(Grid::from_options(GridOptions { columns: 0, ..good }).is_none());
    assert!(Grid::from_options(GridOptions { start_pos: pos(2, 0), ..good }).is_none());
    assert!(Grid::from_options(GridOptions { start_pos: pos(0, -1), ..good }).is_none());
    assert!(Grid::from_options(GridOptions { end_pos: pos(0, 2), ..good }).is_none());
    assert!(Grid::from_options(GridOptions { end_pos: pos(-1, 0), ..good }).is_none());
    assert!(Grid::from_options(GridOptions { rows: usize::MAX, ..good }).is_none());
    assert!(Grid::from_options(GridOptions { columns: i32::MAX as usize + 1, ..good }).is_none());
}

#[test]
fn update_start_end_pulls_markers_inside() {
    let mut options = GridOptions { rows: 3, columns: 4, start_pos: pos(5, 1), end_pos: pos(9, 9) };
    update_start_end(&mut options);
    assert_eq!(options.start_pos, pos(2, 1));
    assert_eq!(options.end_pos, pos(2, 3));
    assert_eq!(options.rows, 3);
    assert_eq!(options.columns, 4);
}

#[test]
fn update_start_end_leaves_markers_that_are_inside() {
    let mut options = GridOptions { rows: 3, columns: 4, start_pos: pos(0, 0), end_pos: pos(2, 3) };
    let before = options;
    update_start_end(&mut options);
    assert!(options == before);
}

#[test]
fn path_finder_names() {
    assert_eq!(path_finder_str(PathFindAlgorithms::DepthFirst), "depth_first");
    assert_eq!(path_finder_str(PathFindAlgorithms::BreadthFirst), "breadth_first");
    assert_eq!(path_finder_str(PathFindAlgorithms::Dijkstra), "dijkstra");
    assert_eq!(path_finder_str(PathFindAlgorithms::AStar), "a_star");
}

#[test]
fn path_finder_is_found_by_its_name() {
    for path_finder in [
        PathFindAlgorithms::DepthFirst,
        PathFindAlgorithms::BreadthFirst,
        PathFindAlgorithms::Dijkstra,
        PathFindAlgorithms::AStar,
    ] {
        assert_eq!(path_finder_from_str(path_finder_str(path_finder)), Some(path_finder));
    }
    assert_eq!(path_finder_from_str(""), None);
    assert_eq!(path_finder_from_str("Dijkstra"), None);
    assert_eq!(path_finder_from_str("a_star "), None);
    assert_eq!(path_finder_from_str("dom"), None);
}

#[test]
fn grid_renderer_names() {
    assert_eq!(grid_renderer_str(GridRenderMode::DOM), "dom");
    assert_eq!(grid_renderer_str(GridRenderMode::WebGL2), "webgl_2");
    assert_eq!(grid_renderer_from_str("dom"), Some(GridRenderMode::DOM));
    assert_eq!(grid_renderer_from_str("webgl_2"), Some(GridRenderMode::WebGL2));
    assert_eq!(grid_renderer_from_str("webgl2"), None);
    assert_eq!(grid_renderer_from_str(""), None);
}

#[test]
fn tile_look_puts_markers_first() {
    assert_eq!(tile_look(Tile::Wall, true, true, true, true), TileLook::Start);
    assert_eq!(tile_look(Tile::Wall, false, true, true, true), TileLook::End);
    assert_eq!(tile_look(Tile::Wall, false, false, true, true), TileLook::Wall);
    assert_eq!(tile_look(Tile::Open, false, false, true, true), TileLook::Visited);
    assert_eq!(tile_look(Tile::Open, false, false, true, false), TileLook::Path);
    assert_eq!(tile_look(Tile::Open, false, false, false, false), TileLook::Open);
}

#[test]
fn tile_classes_and_colours() {
    assert_eq!(tile_class(TileLook::Start), "tile-start");
    assert_eq!(tile_class(TileLook::End), "tile-end");
    assert_eq!(tile_class(TileLook::Wall), "tile-wall");
    assert_eq!(tile_class(TileLook::Visited), "tile-visited");
    assert_eq!(tile_class(TileLook::Path), "tile-path");
    assert_eq!(tile_class(TileLook::Open), "tile-none");
    assert_eq!(tile_rgb(TileLook::Start), (0, 255, 0));
    assert_eq!(tile_rgb(TileLook::End), (255, 0, 0));
    assert_eq!(tile_rgb(TileLook::Wall), (0, 0, 0));
    assert_eq!(tile_rgb(TileLook::Visited), (255, 0, 255));
    assert_eq!(tile_rgb(TileLook::Path), (255, 255, 0));
    assert_eq!(tile_rgb(TileLook::Open), (52, 206, 255));
}

#[test]
fn toggled_swaps_open_and_wall() {
    assert_eq!(toggled(Tile::Open), Tile::Wall);
    assert_eq!(toggled(Tile::Wall), Tile::Open);
}

#[test]
fn gen_2d_iter_runs_the_second_range_within_the_first() {
    assert_eq!(
        gen_2d_iter(0..2, 0..3),
        vec![(0, 0), (0, 1), (0, 2), (1, 0), (1, 1), (1, 2)]
    );
    assert_eq!(gen_2d_iter(1..3, -1..1), vec![(1, -1), (1, 0), (2, -1), (2, 0)]);
    assert_eq!(gen_2d_iter(0..0, 0..3), vec![]);
    assert_eq!(gen_2d_iter(0..3, 2..2), vec![]);
    assert_eq!(gen_2d_iter(3..0, 0..3), vec![]);
    assert_eq!(gen_2d_iter(0..3, 5..1), vec![]);
}

#[test]
fn dom_grid_drag_messages() {
    let mut component = DOMGridComponent::create();
    assert_eq!(component.drag_state(), DragState::Idle);
    assert!(!component.update(GridMsg::DragStart));
    assert_eq!(component.drag_state(), DragState::Start);
    assert!(!component.update(GridMsg::DragEnd));
    assert_eq!(component.drag_state(), DragState::End);
    assert!(!component.update(GridMsg::DragNone));
    assert_eq!(component.drag_state(), DragState::Idle);
}

#[test]
fn dom_grid_press_and_enter() {
    let mut component = DOMGridComponent::create();
    let p = pos(2, 3);
    assert_eq!(component.tile_pressed(p, true, false), Reaction::Message(GridMsg::DragStart));
    assert_eq!(component.tile_pressed(p, true, true), Reaction::Message(GridMsg::DragStart));
    assert_eq!(component.tile_pressed(p, false, true), Reaction::Message(GridMsg::DragEnd));
    assert_eq!(component.tile_pressed(p, false, false), Reaction::Emit(GridEvent::TileClick(p)));
    assert_eq!(component.tile_entered(p, true), Reaction::Emit(GridEvent::TileClick(p)));
    assert_eq!(component.tile_entered(p, false), Reaction::Message(GridMsg::DragNone));
    component.update(GridMsg::DragStart);
    assert_eq!(component.tile_pressed(p, false, false), Reaction::Emit(GridEvent::StartMove(p)));
    assert_eq!(component.tile_entered(p, true), Reaction::Emit(GridEvent::StartMove(p)));
    component.update(GridMsg::DragEnd);
    assert_eq!(component.tile_pressed(p, false, false), Reaction::Emit(GridEvent::EndMove(p)));
    assert_eq!(component.tile_entered(p, true), Reaction::Emit(GridEvent::EndMove(p)));
    assert_eq!(component.tile_entered(p, false), Reaction::Message(GridMsg::DragNone));
}

#[test]
fn canvas_pointer_toggles_each_cell_once() {
    let grid = Grid::new(5, 5, pos(0, 0), pos(4, 4));
    let mut pointer = Pointer::new();
    assert_eq!(pointer.update(&grid, pos(1, 1), false), None);
    assert_eq!(pointer.update(&grid, pos(1, 1), true), Some(GridEvent::TileClick(pos(1, 1))));
    assert_eq!(pointer.update(&grid, pos(1, 1), true), None);
    assert_eq!(pointer.update(&grid, pos(2, 1), true), Some(GridEvent::TileClick(pos(2, 1))));
    assert_eq!(pointer.update(&grid, pos(2, 1), false), None);
    assert_eq!(pointer, Pointer::new());
    assert_eq!(pointer.update(&grid, pos(2, 1), true), Some(GridEvent::TileClick(pos(2, 1))));
}

#[test]
fn canvas_pointer_drags_the_start_marker() {
    let grid = Grid::new(5, 5, pos(0, 0), pos(4, 4));
    let mut pointer = Pointer::new();
    assert_eq!(pointer.update(&grid, pos(0, 0), true), None);
    assert!(pointer.is_dragging_start);
    assert_eq!(pointer.old_pos, Some(pos(0, 0)));
    assert_eq!(pointer.update(&grid, pos(1, 0), true), Some(GridEvent::StartMove(pos(1, 0))));
    assert_eq!(pointer.update(&grid, pos(1, 0), true), None);
    // over the end cell the drag of the start marker goes on
    assert_eq!(pointer.update(&grid, pos(4, 4), true), Some(GridEvent::StartMove(pos(4, 4))));
    assert!(!pointer.is_dragging_end);
    assert_eq!(pointer.update(&grid, pos(4, 3), false), None);
    assert!(!pointer.is_dragging_start);
    assert_eq!(pointer.old_pos, None);
}

#[test]
fn canvas_pointer_drags_the_end_marker() {
    let grid = Grid::new(5, 5, pos(0, 0), pos(4, 4));
    let mut pointer = Pointer::new();
    assert_eq!(pointer.update(&grid, pos(4, 4), true), None);
    assert!(pointer.is_dragging_end);
    assert_eq!(pointer.update(&grid, pos(3, 4), true), Some(GridEvent::EndMove(pos(3, 4))));
    // over the start cell the start marker takes over
    assert_eq!(pointer.update(&grid, pos(0, 0), true), Some(GridEvent::StartMove(pos(0, 0))));
    assert!(pointer.is_dragging_start);
    assert!(pointer.is_dragging_end);
}

#[test]
fn canvas_pointer_coming_from_a_tile_picks_up_a_marker() {
    let grid = Grid::new(5, 5, pos(0, 0), pos(4, 4));
    let mut pointer = Pointer::new();
    assert_eq!(pointer.update(&grid, pos(1, 0), true), Some(GridEvent::TileClick(pos(1, 0))));
    assert_eq!(pointer.update(&grid, pos(0, 0), true), Some(GridEvent::StartMove(pos(0, 0))));
    assert!(pointer.is_dragging_start);
}
