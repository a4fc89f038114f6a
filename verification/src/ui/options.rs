use crate::pathfinders::{Grid, PathFindAlgorithms, Pos, Unit};
use crate::ui::grid::GridRenderMode;
use vstd::prelude::*;

verus! {

/// The extents of a grid and the places of its two marked cells, as the
/// user has set them.
#[derive(Copy, Clone, PartialEq, Eq, Structural)]
pub struct GridOptions {
    pub rows: usize,
    pub columns: usize,
    pub start_pos: Pos,
    pub end_pos: Pos,
}

impl Default for GridOptions {
    /// Ten by ten cells, from the first corner to the opposite one.
    fn default() -> (options: Self)
        ensures
            options == (GridOptions {
                rows: 10,
                columns: 10,
                start_pos: Pos { x: 0, y: 0 },
                end_pos: Pos { x: 9, y: 9 },
            }),
    {
        Self { rows: 10, columns: 10, start_pos: Pos { x: 0, y: 0 }, end_pos: Pos { x: 9, y: 9 } }
    }
}

impl GridOptions {
    /// Whether `pos` lies within the extents: `x` counts rows and `y`
    /// counts columns.
    pub open spec fn holds(&self, pos: Pos) -> bool {
        0 <= pos.x < self.rows && 0 <= pos.y < self.columns
    }

    /// Whether a grid can be made of these options: both extents are
    /// positive and fit a coordinate, the number of cells fits a `usize`,
    /// and both marked cells lie within the extents.
    pub open spec fn valid(&self) -> bool {
        &&& 0 < self.rows <= i32::MAX
        &&& 0 < self.columns <= i32::MAX
        &&& self.rows * self.columns <= usize::MAX
        &&& self.holds(self.start_pos)
        &&& self.holds(self.end_pos)
    }
}

impl Grid {
    /// Makes the grid that `options` describe, with every tile open: as
    /// wide as there are rows and as high as there are columns. `None`
    /// for options of which no grid can be made.
    pub fn from_options(options: GridOptions) -> (grid: Option<Grid>)
        ensures
            grid is Some == options.valid(),
            grid is Some ==> {
                let g = grid.unwrap();
                &&& g.wf()
                &&& g.spec_width() == options.rows
                &&& g.spec_height() == options.columns
                &&& g.spec_start() == options.start_pos
                &&& g.spec_end() == options.end_pos
                &&& forall|p: Pos| g.in_bounds(p) ==> #[trigger] g.tiles()[p]
                    == crate::pathfinders::Tile::Open
            },
    {
        if options.rows == 0 || options.rows > i32::MAX as usize || options.columns == 0
            || options.columns > i32::MAX as usize {
            return None;
        }
        if options.columns > usize::MAX / options.rows {
            proof {
                assert(options.rows * options.columns > usize::MAX) by (nonlinear_arith)
                    requires
                        options.columns > usize::MAX / options.rows,
                        options.rows > 0,
                ;
            }
            return None;
        }
        proof {
            assert(options.rows * options.columns <= usize::MAX) by (nonlinear_arith)
                requires
                    options.columns <= usize::MAX / options.rows,
                    options.rows > 0,
            ;
            assert(options.columns * options.rows == options.rows * options.columns)
                by (nonlinear_arith);
        }
        let width = options.rows as Unit;
        let height = options.columns as Unit;
        let start = options.start_pos;
        let end = options.end_pos;
        if start.x < 0 || start.x >= width || start.y < 0 || start.y >= height {
            return None;
        }
        if end.x < 0 || end.x >= width || end.y < 0 || end.y >= height {
            return None;
        }
        Some(Grid::new(width, height, start, end))
    }
}

/// Moves the two marked cells back within the extents after the extents
/// have shrunk: no coordinate stays above the last row or column.
pub fn update_start_end(grid_options: &mut GridOptions)
    requires
        old(grid_options).rows <= i32::MAX,
        old(grid_options).columns <= i32::MAX,
    ensures
        final(grid_options).rows == old(grid_options).rows,
        final(grid_options).columns == old(grid_options).columns,
        final(grid_options).start_pos == clamp_pos(*old(grid_options), old(grid_options).start_pos),
        final(grid_options).end_pos == clamp_pos(*old(grid_options), old(grid_options).end_pos),
{
    grid_options.start_pos = update_pos(grid_options, grid_options.start_pos);
    grid_options.end_pos = update_pos(grid_options, grid_options.end_pos);
}

/// `pos` with each coordinate lowered to the last row or column where it
/// lies beyond.
pub open spec fn clamp_pos(options: GridOptions, pos: Pos) -> Pos {
    Pos {
        x: if pos.x <= options.rows - 1 {
            pos.x
        } else {
            (options.rows - 1) as i32
        },
        y: if pos.y <= options.columns - 1 {
            pos.y
        } else {
            (options.columns - 1) as i32
        },
    }
}

fn update_pos(grid_options: &GridOptions, pos: Pos) -> (clamped: Pos)
    requires
        grid_options.rows <= i32::MAX,
        grid_options.columns <= i32::MAX,
    ensures
        clamped == clamp_pos(*grid_options, pos),
{
    let last_row: Unit = grid_options.rows as Unit - 1;
    let last_column: Unit = grid_options.columns as Unit - 1;
    Pos {
        x: if pos.x <= last_row {
            pos.x
        } else {
            last_row
        },
        y: if pos.y <= last_column {
            pos.y
        } else {
            last_column
        },
    }
}

/// The name under which a strategy is offered for selection.
pub open spec fn path_finder_name(path_finder: PathFindAlgorithms) -> Seq<char> {
    match path_finder {
        PathFindAlgorithms::DepthFirst => "depth_first"@,
        PathFindAlgorithms::BreadthFirst => "breadth_first"@,
        PathFindAlgorithms::Dijkstra => "dijkstra"@,
        PathFindAlgorithms::AStar => "a_star"@,
    }
}

/// The name under which a renderer is offered for selection.
pub open spec fn grid_renderer_name(grid_renderer: GridRenderMode) -> Seq<char> {
    match grid_renderer {
        GridRenderMode::DOM => "dom"@,
        GridRenderMode::WebGL2 => "webgl_2"@,
    }
}

/// No two strategies share a name, and no two renderers do.
pub proof fn lemma_names_distinct()
    ensures
        forall|a: PathFindAlgorithms, b: PathFindAlgorithms|
            path_finder_name(a) == path_finder_name(b) ==> a == b,
        forall|a: GridRenderMode, b: GridRenderMode|
            grid_renderer_name(a) == grid_renderer_name(b) ==> a == b,
{
    reveal_strlit("depth_first");
    reveal_strlit("breadth_first");
    reveal_strlit("dijkstra");
    reveal_strlit("a_star");
    reveal_strlit("dom");
    reveal_strlit("webgl_2");
    assert("depth_first"@.len() == 11);
    assert("breadth_first"@.len() == 13);
    assert("dijkstra"@.len() == 8);
    assert("a_star"@.len() == 6);
    assert("dom"@.len() == 3);
    assert("webgl_2"@.len() == 7);
}

/// The name of a strategy.
pub fn path_finder_str(path_finder: PathFindAlgorithms) -> (name: &'static str)
    ensures
        name@ == path_finder_name(path_finder),
{
    match path_finder {
        PathFindAlgorithms::DepthFirst => "depth_first",
        PathFindAlgorithms::BreadthFirst => "breadth_first",
        PathFindAlgorithms::Dijkstra => "dijkstra",
        PathFindAlgorithms::AStar => "a_star",
    }
}

/// Whether two strings hold the same characters.
fn same_text(a: &str, b: &str) -> (same: bool)
    ensures
        same == (a@ == b@),
{
    a.to_owned() == b.to_owned()
}

/// The strategy of a given name; `None` for any other string.
pub fn path_finder_from_str(str: &str) -> (path_finder: Option<PathFindAlgorithms>)
    ensures
        forall|a: PathFindAlgorithms| path_finder == Some(a) <==> str@ == path_finder_name(a),
{
    let path_finder = if same_text(str, "depth_first") {
        Some(PathFindAlgorithms::DepthFirst)
    } else if same_text(str, "breadth_first") {
        Some(PathFindAlgorithms::BreadthFirst)
    } else if same_text(str, "dijkstra") {
        Some(PathFindAlgorithms::Dijkstra)
    } else if same_text(str, "a_star") {
        Some(PathFindAlgorithms::AStar)
    } else {
        None
    };
    proof {
        lemma_names_distinct();
        assert forall|a: PathFindAlgorithms| path_finder == Some(a) <==> str@ == path_finder_name(
            a,
        ) by {
            if path_finder is Some {
                assert(str@ == path_finder_name(path_finder.unwrap()));
            }
        }
    }
    path_finder
}

/// The name of a renderer.
pub fn grid_renderer_str(grid_renderer: GridRenderMode) -> (name: &'static str)
    ensures
        name@ == grid_renderer_name(grid_renderer),
{
    match grid_renderer {
        GridRenderMode::DOM => "dom",
        GridRenderMode::WebGL2 => "webgl_2",
    }
}

/// The renderer of a given name; `None` for any other string.
pub fn grid_renderer_from_str(str: &str) -> (grid_renderer: Option<GridRenderMode>)
    ensures
        forall|a: GridRenderMode| grid_renderer == Some(a) <==> str@ == grid_renderer_name(a),
{
    let grid_renderer = if same_text(str, "dom") {
        Some(GridRenderMode::DOM)
    } else if same_text(str, "webgl_2") {
        Some(GridRenderMode::WebGL2)
    } else {
        None
    };
    proof {
        lemma_names_distinct();
        assert forall|a: GridRenderMode| grid_renderer == Some(a) <==> str@ == grid_renderer_name(
            a,
        ) by {
            if grid_renderer is Some {
                assert(str@ == grid_renderer_name(grid_renderer.unwrap()));
            }
        }
    }
    grid_renderer
}

} // verus!
