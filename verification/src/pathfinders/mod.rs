use self::best_first::Search;
use self::route::connects;
use vstd::prelude::*;
use vstd::std_specs::ops::AddSpecImpl;

verus! {

/// The integer type of grid coordinates.
pub type Unit = i32;

/// A coordinate pair. Signed, so that a neighbour of a border cell can be
/// formed before it is tested against the grid's bounds.
#[derive(Copy, Clone, Debug, PartialEq, Eq, Structural, Default)]
pub struct Pos {
    pub x: Unit,
    pub y: Unit,
}

impl Pos {
    /// Unit step towards smaller `y`.
    pub fn up() -> (d: Pos)
        ensures
            d == (Pos { x: 0, y: -1i32 }),
    {
        Pos { x: 0, y: -1 }
    }

    /// Unit step towards larger `y`.
    pub fn down() -> (d: Pos)
        ensures
            d == (Pos { x: 0, y: 1 }),
    {
        Pos { x: 0, y: 1 }
    }

    /// Unit step towards smaller `x`.
    pub fn left() -> (d: Pos)
        ensures
            d == (Pos { x: -1i32, y: 0 }),
    {
        Pos { x: -1, y: 0 }
    }

    /// Unit step towards larger `x`.
    pub fn right() -> (d: Pos)
        ensures
            d == (Pos { x: 1, y: 0 }),
    {
        Pos { x: 1, y: 0 }
    }

    /// The sum of two positions has both coordinates inside the range of
    /// [`Unit`].
    pub open spec fn sum_fits(self, rhs: Pos) -> bool {
        &&& i32::MIN <= self.x + rhs.x <= i32::MAX
        &&& i32::MIN <= self.y + rhs.y <= i32::MAX
    }
}

impl core::ops::Add for Pos {
    type Output = Pos;

    fn add(self, rhs: Pos) -> (sum: Pos) {
        Pos { x: self.x + rhs.x, y: self.y + rhs.y }
    }
}

impl AddSpecImpl for Pos {
    open spec fn obeys_add_spec() -> bool {
        true
    }

    open spec fn add_req(self, rhs: Pos) -> bool {
        self.sum_fits(rhs)
    }

    open spec fn add_spec(self, rhs: Pos) -> Pos {
        Pos { x: (self.x + rhs.x) as i32, y: (self.y + rhs.y) as i32 }
    }
}

/// Manhattan distance between two positions.
pub open spec fn manhattan(a: Pos, b: Pos) -> nat {
    let dx = a.x - b.x;
    let dy = a.y - b.y;
    ((if dx < 0 { -dx } else { dx }) + (if dy < 0 { -dy } else { dy })) as nat
}

/// Two positions are neighbours when exactly one axis-aligned unit step
/// separates them.
pub open spec fn adjacent(a: Pos, b: Pos) -> bool {
    manhattan(a, b) == 1
}

/// What occupies one cell of a grid.
#[derive(Copy, Clone, Debug, PartialEq, Eq, Structural)]
pub enum Tile {
    Open,
    Wall,
}

/// A dense rectangular map from positions to values, stored row by row.
///
/// Addressing is permissive: reading a position outside the rectangle gives
/// `None`, and writing to one changes nothing.
#[derive(Clone, Debug, PartialEq)]
pub struct Vec2d<T> {
    width: usize,
    height: usize,
    flattened: Vec<T>,
}

impl<T> View for Vec2d<T> {
    type V = Map<Pos, T>;

    /// The map from every position inside the rectangle to the value stored
    /// there.
    open spec fn view(&self) -> Map<Pos, T> {
        Map::new(|p: Pos| self.has(p), |p: Pos| self.cell(p))
    }
}

/// In a rectangle `width` cells wide, the row-major index of a cell
/// determines the cell.
pub proof fn lemma_index_injective(width: int, x1: int, y1: int, x2: int, y2: int)
    requires
        0 <= x1 < width,
        0 <= x2 < width,
        0 <= y1,
        0 <= y2,
        y1 * width + x1 == y2 * width + x2,
    ensures
        x1 == x2,
        y1 == y2,
{
    if y1 < y2 {
        assert((y1 + 1) * width <= y2 * width) by (nonlinear_arith)
            requires
                y1 + 1 <= y2,
                0 <= width,
        ;
        assert((y1 + 1) * width == y1 * width + width) by (nonlinear_arith);
    } else if y2 < y1 {
        assert((y2 + 1) * width <= y1 * width) by (nonlinear_arith)
            requires
                y2 + 1 <= y1,
                0 <= width,
        ;
        assert((y2 + 1) * width == y2 * width + width) by (nonlinear_arith);
    }
}

/// The row-major index of a cell inside a rectangle is below the number of
/// cells.
pub proof fn lemma_index_in_range(width: int, height: int, x: int, y: int)
    requires
        0 <= x < width,
        0 <= y < height,
    ensures
        0 <= y * width + x < width * height,
        0 <= y * width,
{
    assert(0 <= y * width) by (nonlinear_arith)
        requires
            0 <= y,
            0 <= width,
    ;
    assert((y + 1) * width <= height * width) by (nonlinear_arith)
        requires
            y + 1 <= height,
            0 <= width,
    ;
    assert((y + 1) * width == y * width + width) by (nonlinear_arith);
    assert(height * width == width * height) by (nonlinear_arith);
}

impl<T> Vec2d<T> {
    /// The stored values, row by row.
    pub closed spec fn entries(&self) -> Seq<T> {
        self.flattened@
    }

    /// There is exactly one stored value per cell.
    pub open spec fn wf(&self) -> bool {
        self.entries().len() == self.spec_width() * self.spec_height()
    }

    /// Number of columns.
    pub closed spec fn spec_width(&self) -> nat {
        self.width as nat
    }

    /// Number of rows.
    pub closed spec fn spec_height(&self) -> nat {
        self.height as nat
    }

    /// Whether `pos` lies inside the rectangle.
    pub open spec fn has(&self, pos: Pos) -> bool {
        &&& 0 <= pos.x < self.spec_width()
        &&& 0 <= pos.y < self.spec_height()
    }

    /// The value stored at `pos`, for a position inside the rectangle.
    pub open spec fn cell(&self, pos: Pos) -> T
        recommends
            self.has(pos),
    {
        self.entries()[pos.y * self.spec_width() + pos.x]
    }

    /// Creates a map of `height` rows and `width` columns in which every
    /// cell holds a clone of `value`.
    pub fn new(height: usize, width: usize, value: T) -> (map: Self) where T: Clone
        requires
            height * width <= usize::MAX,
        ensures
            map.wf(),
            map.spec_width() == width,
            map.spec_height() == height,
            forall|p: Pos| #[trigger] map.has(p) ==> cloned(value, map.cell(p)),
    {
        proof {
            assert(height * width == width * height) by (nonlinear_arith);
        }
        let flattened = vec![value; height * width];
        let map = Self { width, height, flattened };
        proof {
            assert forall|p: Pos| #[trigger] map.has(p) implies cloned(value, map.cell(p)) by {
                lemma_index_in_range(width as int, height as int, p.x as int, p.y as int);
            }
        }
        map
    }

    /// Number of columns.
    pub fn width(&self) -> (w: usize)
        ensures
            w == self.spec_width(),
    {
        self.width
    }

    /// Number of rows.
    pub fn height(&self) -> (h: usize)
        ensures
            h == self.spec_height(),
    {
        self.height
    }

    /// The entries are the contents of the stored vector.
    proof fn lemma_entries(&self)
        ensures
            self.entries() == self.flattened@,
    {
    }

    /// The cells of a well-formed map can be counted in a `usize`.
    pub proof fn lemma_cells_fit(&self)
        requires
            self.wf(),
        ensures
            self.spec_width() * self.spec_height() <= usize::MAX,
    {
        assert(self.flattened.len() == self.flattened@.len());
    }

    /// Row-major index of `pos`, if it lies inside the rectangle.
    fn index(&self, pos: Pos) -> (i: Option<usize>)
        requires
            self.wf(),
        ensures
            i.is_some() == self.has(pos),
            i.is_some() ==> i.unwrap() == pos.y * self.width + pos.x && i.unwrap()
                < self.flattened@.len(),
    {
        if pos.x < 0 || pos.y < 0 {
            return None;
        }
        let x = pos.x as usize;
        let y = pos.y as usize;
        if x >= self.width || y >= self.height {
            return None;
        }
        proof {
            lemma_index_in_range(self.width as int, self.height as int, x as int, y as int);
            assert(self.flattened.len() == self.flattened@.len());
            assert(y * self.width + x < self.width * self.height);
        }
        Some(y * self.width + x)
    }

    /// Reads the value at `pos`; `None` for a position outside the
    /// rectangle.
    pub fn get(&self, pos: Pos) -> (value: Option<&T>)
        requires
            self.wf(),
        ensures
            value.is_some() == self.has(pos),
            value.is_some() ==> *value.unwrap() == self.cell(pos),
            value.is_some() ==> *value.unwrap() == self@[pos],
    {
        match self.index(pos) {
            Some(i) => Some(&self.flattened[i]),
            None => None,
        }
    }

    /// Hands out the cell at `pos` for writing. The position must lie
    /// inside the rectangle; the result is then always `Some`.
    pub fn get_mut(&mut self, pos: Pos) -> (value: Option<&mut T>)
        requires
            old(self).wf(),
            old(self).has(pos),
        ensures
            value.is_some(),
            *value.unwrap() == old(self).cell(pos),
            final(self).wf(),
            final(self).spec_width() == old(self).spec_width(),
            final(self).spec_height() == old(self).spec_height(),
            final(self).cell(pos) == *final(value.unwrap()),
            forall|p: Pos|
                p != pos && #[trigger] old(self).has(p) ==> final(self).cell(p) == old(self).cell(
                    p,
                ),
    {
        let ghost before = *self;
        let i = match self.index(pos) {
            Some(i) => i,
            None => {
                return None;
            },
        };
        proof {
            assert forall|p: Pos| p != pos && #[trigger] before.has(p) implies pos.y * before.width
                + pos.x != p.y * before.width + p.x && 0 <= p.y * before.width + p.x
                < before.flattened@.len() by {
                lemma_index_in_range(
                    before.width as int,
                    before.height as int,
                    p.x as int,
                    p.y as int,
                );
                if p.y * before.width + p.x == pos.y * before.width + pos.x {
                    lemma_index_injective(
                        before.width as int,
                        p.x as int,
                        p.y as int,
                        pos.x as int,
                        pos.y as int,
                    );
                }
            }
        }
        Some(&mut self.flattened[i])
    }

    /// Overwrites the value at `pos`; does nothing for a position outside
    /// the rectangle.
    pub fn set(&mut self, pos: Pos, value: T)
        requires
            old(self).wf(),
        ensures
            final(self).wf(),
            final(self).spec_width() == old(self).spec_width(),
            final(self).spec_height() == old(self).spec_height(),
            old(self).has(pos) ==> final(self)@ == old(self)@.insert(pos, value),
            old(self).has(pos) ==> final(self).cell(pos) == value,
            forall|p: Pos|
                p != pos && #[trigger] old(self).has(p) ==> final(self).cell(p) == old(self).cell(
                    p,
                ),
            !old(self).has(pos) ==> *final(self) == *old(self),
    {
        let i = match self.index(pos) {
            Some(i) => i,
            None => return ,
        };
        self.flattened[i] = value;
        proof {
            assert forall|p: Pos| p != pos && #[trigger] old(self).has(p) implies self.cell(p)
                == old(self).cell(p) by {
                lemma_index_in_range(self.width as int, self.height as int, p.x as int, p.y as int);
                if p.y * self.width + p.x == pos.y * self.width + pos.x {
                    lemma_index_injective(
                        self.width as int,
                        p.x as int,
                        p.y as int,
                        pos.x as int,
                        pos.y as int,
                    );
                }
            }
            assert(self@ =~= old(self)@.insert(pos, value));
        }
    }
}

/// A rectangle of tiles with a start cell and an end cell.
///
/// Both marked cells always lie inside the rectangle and are always open.
#[derive(Clone, Debug, PartialEq)]
pub struct Grid {
    tiles: Vec2d<Tile>,
    start: Pos,
    end: Pos,
}

impl Grid {
    /// The tile at every position inside the grid.
    pub closed spec fn tiles(&self) -> Map<Pos, Tile> {
        self.tiles@
    }

    /// Number of columns.
    pub closed spec fn spec_width(&self) -> int {
        self.tiles.spec_width() as int
    }

    /// Number of rows.
    pub closed spec fn spec_height(&self) -> int {
        self.tiles.spec_height() as int
    }

    /// The start cell.
    pub closed spec fn spec_start(&self) -> Pos {
        self.start
    }

    /// The end cell.
    pub closed spec fn spec_end(&self) -> Pos {
        self.end
    }

    /// Whether `pos` lies inside the grid.
    pub open spec fn in_bounds(&self, pos: Pos) -> bool {
        &&& 0 <= pos.x < self.spec_width()
        &&& 0 <= pos.y < self.spec_height()
    }

    /// Whether `pos` lies inside the grid and its tile is open.
    pub open spec fn walkable(&self, pos: Pos) -> bool {
        self.in_bounds(pos) && self.tiles()[pos] == Tile::Open
    }

    /// The tile map covers exactly the positions inside the grid.
    pub closed spec fn tiles_wf(&self) -> bool {
        self.tiles.wf()
    }

    /// The invariant of a grid: both extents are positive and fit a
    /// coordinate, and the start and end cells are inside and open.
    pub open spec fn wf(&self) -> bool {
        &&& self.tiles_wf()
        &&& 0 < self.spec_width() <= i32::MAX
        &&& 0 < self.spec_height() <= i32::MAX
        &&& self.tiles().dom() =~= Set::new(|p: Pos| self.in_bounds(p))
        &&& self.walkable(self.spec_start())
        &&& self.walkable(self.spec_end())
    }

    /// The cells of a grid can be counted in a `usize`.
    pub proof fn lemma_cells_fit(&self)
        requires
            self.wf(),
        ensures
            self.spec_height() * self.spec_width() <= usize::MAX,
            self.spec_width() * self.spec_height() <= usize::MAX,
    {
        self.tiles.lemma_entries();
        assert(self.tiles.flattened.len() == self.tiles.flattened@.len());
        assert(self.spec_height() * self.spec_width() == self.spec_width() * self.spec_height())
            by (nonlinear_arith);
    }

    /// Creates a grid of the given extents in which every tile is open.
    pub fn new(width: Unit, height: Unit, start: Pos, end: Pos) -> (grid: Self)
        requires
            0 < width,
            0 < height,
            height * width <= usize::MAX,
            0 <= start.x < width && 0 <= start.y < height,
            0 <= end.x < width && 0 <= end.y < height,
        ensures
            grid.wf(),
            grid.spec_width() == width,
            grid.spec_height() == height,
            grid.spec_start() == start,
            grid.spec_end() == end,
            forall|p: Pos| grid.in_bounds(p) ==> #[trigger] grid.tiles()[p] == Tile::Open,
    {
        let tiles = Vec2d::new(height as usize, width as usize, Tile::Open);
        let grid = Self { tiles, start, end };
        proof {
            assert forall|p: Pos| grid.in_bounds(p) implies #[trigger] grid.tiles()[p]
                == Tile::Open by {
                assert(grid.tiles.has(p));
                assert(cloned(Tile::Open, grid.tiles.cell(p)));
            }
            assert(grid.tiles().dom() =~= Set::new(|p: Pos| grid.in_bounds(p)));
        }
        grid
    }

    /// Number of columns.
    pub fn width(&self) -> (w: Unit)
        requires
            self.wf(),
        ensures
            w == self.spec_width(),
    {
        self.tiles.width() as Unit
    }

    /// Number of rows.
    pub fn height(&self) -> (h: Unit)
        requires
            self.wf(),
        ensures
            h == self.spec_height(),
    {
        self.tiles.height() as Unit
    }

    /// The tile at a position inside the grid.
    pub fn tile(&self, pos: Pos) -> (tile: Tile)
        requires
            self.wf(),
            self.in_bounds(pos),
        ensures
            tile == self.tiles()[pos],
    {
        match self.tiles.get(pos) {
            Some(tile) => *tile,
            None => Tile::Open,
        }
    }

    /// The tile at `pos`, or `None` for a position outside the grid.
    pub fn tile_opt(&self, pos: Pos) -> (tile: Option<Tile>)
        requires
            self.wf(),
        ensures
            tile == (if self.in_bounds(pos) {
                Some(self.tiles()[pos])
            } else {
                None
            }),
    {
        match self.tiles.get(pos) {
            Some(tile) => Some(*tile),
            None => None,
        }
    }

    /// Overwrites the tile at `pos`. The start cell, the end cell and
    /// positions outside the grid are left as they are.
    pub fn set_tile(&mut self, pos: Pos, tile: Tile)
        requires
            old(self).wf(),
        ensures
            final(self).wf(),
            final(self).spec_width() == old(self).spec_width(),
            final(self).spec_height() == old(self).spec_height(),
            final(self).spec_start() == old(self).spec_start(),
            final(self).spec_end() == old(self).spec_end(),
            final(self).tiles() == (if old(self).in_bounds(pos) && pos != old(self).spec_start()
                && pos != old(self).spec_end() {
                old(self).tiles().insert(pos, tile)
            } else {
                old(self).tiles()
            }),
    {
        if self.start == pos || self.end == pos {
            return ;
        }
        self.tiles.set(pos, tile);
    }

    /// The start cell.
    pub fn start(&self) -> (pos: Pos)
        ensures
            pos == self.spec_start(),
    {
        self.start
    }

    /// Moves the start marker to `pos`, a position inside the grid, and
    /// opens that cell.
    pub fn set_start(&mut self, pos: Pos)
        requires
            old(self).wf(),
            old(self).in_bounds(pos),
        ensures
            final(self).wf(),
            final(self).spec_width() == old(self).spec_width(),
            final(self).spec_height() == old(self).spec_height(),
            final(self).spec_start() == pos,
            final(self).spec_end() == old(self).spec_end(),
            final(self).tiles() == old(self).tiles().insert(pos, Tile::Open),
    {
        self.set_tile(pos, Tile::Open);
        self.start = pos;
        proof {
            assert(self.tiles() =~= old(self).tiles().insert(pos, Tile::Open));
        }
    }

    /// The end cell.
    pub fn end(&self) -> (pos: Pos)
        ensures
            pos == self.spec_end(),
    {
        self.end
    }

    /// Moves the end marker to `pos`, a position inside the grid, and opens
    /// that cell.
    pub fn set_end(&mut self, pos: Pos)
        requires
            old(self).wf(),
            old(self).in_bounds(pos),
        ensures
            final(self).wf(),
            final(self).spec_width() == old(self).spec_width(),
            final(self).spec_height() == old(self).spec_height(),
            final(self).spec_start() == old(self).spec_start(),
            final(self).spec_end() == pos,
            final(self).tiles() == old(self).tiles().insert(pos, Tile::Open),
    {
        self.set_tile(pos, Tile::Open);
        self.end = pos;
        proof {
            assert(self.tiles() =~= old(self).tiles().insert(pos, Tile::Open));
        }
    }
}

/// What one step of a search reports when it has not produced a path.
#[derive(Copy, Clone, Debug, PartialEq, Eq, Structural)]
pub enum PathFindAlgorithmStepResult {
    /// One frontier cell was expanded; the search can go on.
    InProgress,
    /// The frontier is exhausted: no path exists.
    NotFound,
}

/// The outcome of a step that picks the frontier entry at index `i` in
/// state `s`: no path when the frontier is empty, the path along the chain
/// of predecessors when the entry is the end cell, and otherwise only the
/// notice that the search goes on.
pub open spec fn step_outcome(s: Search, grid: &Grid, i: int) -> Result<
    Seq<Pos>,
    PathFindAlgorithmStepResult,
> {
    if s.frontier.len() == 0 {
        Err(PathFindAlgorithmStepResult::NotFound)
    } else if s.frontier[i] == grid.spec_end() {
        Ok(s.path_to(grid.spec_end()))
    } else {
        Err(PathFindAlgorithmStepResult::InProgress)
    }
}

/// Whether what a step returned is the outcome `expected`.
pub open spec fn reports(
    returned: Result<Vec<Pos>, PathFindAlgorithmStepResult>,
    expected: Result<Seq<Pos>, PathFindAlgorithmStepResult>,
) -> bool {
    match returned {
        Ok(path) => expected == Ok::<Seq<Pos>, PathFindAlgorithmStepResult>(path@),
        Err(e) => expected == Err::<Seq<Pos>, PathFindAlgorithmStepResult>(e),
    }
}

/// Construction of a search from a snapshot of a grid.
pub trait PathFindAlgorithmConstructor: Sized {
    /// Starts a search on `grid`.
    fn make_state(grid: Grid) -> (state: Self)
        requires
            grid.wf(),
    ;
}

/// A search that advances by one frontier expansion per call.
pub trait PathFindAlgorithm {
    /// The invariant of the search.
    spec fn wf(&self) -> bool;

    /// The grid that is searched.
    spec fn grid(&self) -> Grid;

    /// The state of the search.
    spec fn search(&self) -> Search;

    /// The index of the frontier entry that the next step takes.
    spec fn pick(&self) -> int;

    /// Advances the search by one step. With an empty frontier the search
    /// is over and nothing changes. Otherwise the picked entry leaves the
    /// frontier; if it is the end cell, the path from start to end is
    /// returned, and if not, its undiscovered walkable neighbours join the
    /// frontier.
    fn next_step(&mut self) -> (result: Result<Vec<Pos>, PathFindAlgorithmStepResult>)
        requires
            old(self).wf(),
        ensures
            final(self).wf(),
            final(self).grid() == old(self).grid(),
            final(self).search() == old(self).search().advance(
                &old(self).grid(),
                old(self).pick(),
            ),
            reports(result, step_outcome(old(self).search(), &old(self).grid(), old(self).pick())),
            result is Ok ==> connects(
                &old(self).grid(),
                result->Ok_0@,
                old(self).grid().spec_start(),
                old(self).grid().spec_end(),
            ),
    ;

    /// Whether `pos` has been discovered.
    fn visited(&self, pos: Pos) -> (seen: bool)
        requires
            self.wf(),
        ensures
            seen == self.search().visited(pos),
    ;

    /// Whether `pos` waits in the frontier.
    fn in_queue(&self, pos: Pos) -> (waiting: bool)
        requires
            self.wf(),
        ensures
            waiting == self.search().frontier.contains(pos),
    ;
}

/// The strategies that a search can be run with.
#[derive(Copy, Clone, Debug, PartialEq, Eq, Structural)]
pub enum PathFindAlgorithms {
    DepthFirst,
    BreadthFirst,
    Dijkstra,
    AStar,
}

/// A search with any one of the four strategies.
pub enum PathFinder {
    DepthFirst(depth_first::DepthFirst),
    BreadthFirst(breadth_first::BreadthFirst),
    Dijkstra(dijkstra::Dijkstra),
    AStar(a_star::AStar),
}

impl PathFinder {
    /// The strategy that this search runs with.
    pub open spec fn strategy(&self) -> PathFindAlgorithms {
        match self {
            PathFinder::DepthFirst(_) => PathFindAlgorithms::DepthFirst,
            PathFinder::BreadthFirst(_) => PathFindAlgorithms::BreadthFirst,
            PathFinder::Dijkstra(_) => PathFindAlgorithms::Dijkstra,
            PathFinder::AStar(_) => PathFindAlgorithms::AStar,
        }
    }
}

impl PathFindAlgorithm for PathFinder {
    open spec fn wf(&self) -> bool {
        match self {
            PathFinder::DepthFirst(s) => s.wf(),
            PathFinder::BreadthFirst(s) => s.wf(),
            PathFinder::Dijkstra(s) => s.wf(),
            PathFinder::AStar(s) => s.wf(),
        }
    }

    open spec fn grid(&self) -> Grid {
        match self {
            PathFinder::DepthFirst(s) => s.grid(),
            PathFinder::BreadthFirst(s) => s.grid(),
            PathFinder::Dijkstra(s) => s.grid(),
            PathFinder::AStar(s) => s.grid(),
        }
    }

    open spec fn search(&self) -> Search {
        match self {
            PathFinder::DepthFirst(s) => s.search(),
            PathFinder::BreadthFirst(s) => s.search(),
            PathFinder::Dijkstra(s) => s.search(),
            PathFinder::AStar(s) => s.search(),
        }
    }

    open spec fn pick(&self) -> int {
        match self {
            PathFinder::DepthFirst(s) => s.pick(),
            PathFinder::BreadthFirst(s) => s.pick(),
            PathFinder::Dijkstra(s) => s.pick(),
            PathFinder::AStar(s) => s.pick(),
        }
    }

    fn next_step(&mut self) -> (result: Result<Vec<Pos>, PathFindAlgorithmStepResult>)
        ensures
            final(self).strategy() == old(self).strategy(),
    {
        match self {
            PathFinder::DepthFirst(s) => s.next_step(),
            PathFinder::BreadthFirst(s) => s.next_step(),
            PathFinder::Dijkstra(s) => s.next_step(),
            PathFinder::AStar(s) => s.next_step(),
        }
    }

    fn visited(&self, pos: Pos) -> (seen: bool) {
        match self {
            PathFinder::DepthFirst(s) => s.visited(pos),
            PathFinder::BreadthFirst(s) => s.visited(pos),
            PathFinder::Dijkstra(s) => s.visited(pos),
            PathFinder::AStar(s) => s.visited(pos),
        }
    }

    fn in_queue(&self, pos: Pos) -> (waiting: bool) {
        match self {
            PathFinder::DepthFirst(s) => s.in_queue(pos),
            PathFinder::BreadthFirst(s) => s.in_queue(pos),
            PathFinder::Dijkstra(s) => s.in_queue(pos),
            PathFinder::AStar(s) => s.in_queue(pos),
        }
    }
}

impl PathFindAlgorithms {
    /// Starts a search on `grid` with this strategy: the start cell is
    /// discovered and waits in the frontier, nothing else is.
    pub fn make_state(&self, grid: Grid) -> (state: PathFinder)
        requires
            grid.wf(),
        ensures
            state.strategy() == *self,
            state.wf(),
            state.grid() == grid,
            state.search() == Search::seeded(&grid),
            state.search().visited(grid.spec_start()),
    {
        match self {
            Self::DepthFirst => PathFinder::DepthFirst(depth_first::DepthFirst::make_state(grid)),
            Self::BreadthFirst => PathFinder::BreadthFirst(
                breadth_first::BreadthFirst::make_state(grid),
            ),
            Self::Dijkstra => PathFinder::Dijkstra(dijkstra::Dijkstra::make_state(grid)),
            Self::AStar => PathFinder::AStar(a_star::AStar::make_state(grid)),
        }
    }
}

} // verus!

mod lookup;
pub mod a_star;
pub mod best_first;
pub mod breadth_first;
pub mod depth_first;
pub mod dijkstra;
pub mod distance;
pub mod route;
pub mod shortest;
pub mod termination;

