//! The maze: a grid of cells with east/south wall bits, grown into a
//! perfect maze by randomized depth-first search over an explicit frontier
//! stack.
//!
//! Only the east and south wall of each cell are stored; a cell's west and
//! north walls are derived from its neighbors, so the two cells sharing a
//! wall can never disagree.  The construction keeps a ghost spanning-tree
//! certificate: one entry per visited cell, each pointing at the earlier
//! entry it was discovered from, which yields the connectivity half of the
//! spanning-tree argument when the frontier runs dry.

use vstd::prelude::*;

use crate::bits::{bits_get, bits_of, bits_repeat, bits_set, BitGrid};
use crate::dir::{Direction, Directions};
use crate::rng::Rand;

verus! {

/// One cell of the grid: its stored walls and whether construction has
/// visited it.
#[derive(Clone, Copy, Debug, PartialEq, Eq, Structural)]
pub struct Cell {
    pub wall_east: bool,
    pub wall_south: bool,
    pub visited: bool,
}

impl Default for Cell {
    /// A fresh cell: both stored walls present, not yet visited.
    fn default() -> (r: Self)
        ensures
            r.wall_east && r.wall_south && !r.visited,
    {
        Cell { wall_east: true, wall_south: true, visited: false }
    }
}

/// A frontier entry: a discovered cell and the visited cell that
/// discovered it.  The same cell may sit in the frontier several times;
/// stale entries are dropped when popped, never earlier.
#[derive(Clone, Copy, Debug)]
pub struct OpenCell {
    pub cell: (usize, usize),
    pub from: (usize, usize),
}

pub struct Maze {
    width: usize,
    height: usize,
    cells: Vec<Cell>,
    open: Vec<OpenCell>,
    /// The cached display bitmap, rebuilt on demand after wall changes.
    bitmap: Option<BitGrid>,
    /// Spanning-tree certificate: entry `k` holds the coordinates of the
    /// `k`-th visited cell and the index of the entry it was discovered
    /// from (entry 0 is the entrance and points at itself).
    tree: Ghost<Seq<((int, int), int)>>,
}

impl Maze {
    pub closed spec fn spec_width(self) -> int {
        self.width as int
    }

    pub closed spec fn spec_height(self) -> int {
        self.height as int
    }

    pub open spec fn in_grid(self, x: int, y: int) -> bool {
        0 <= x < self.spec_width() && 0 <= y < self.spec_height()
    }

    pub closed spec fn sidx(self, x: int, y: int) -> int {
        y * self.spec_width() + x
    }

    pub closed spec fn cell_at(self, x: int, y: int) -> Cell {
        self.cells@[self.sidx(x, y)]
    }

    pub closed spec fn visited_at(self, x: int, y: int) -> bool {
        self.cell_at(x, y).visited
    }

    /// The coordinates one step in direction `d` from `(x, y)`.
    pub open spec fn step_of(x: int, y: int, d: Direction) -> (int, int) {
        match d {
            Direction::North => (x, y - 1),
            Direction::East => (x + 1, y),
            Direction::South => (x, y + 1),
            Direction::West => (x - 1, y),
        }
    }

    /// Whether the wall on side `d` of cell `(x, y)` is present, under the
    /// derivation rule: the grid boundary is always walled, a west or north
    /// wall is the neighbor's stored east or south wall.
    pub closed spec fn has_wall(self, x: int, y: int, d: Direction) -> bool {
        match d {
            Direction::North => y == 0 || self.cell_at(x, y - 1).wall_south,
            Direction::East => self.cell_at(x, y).wall_east,
            Direction::South => self.cell_at(x, y).wall_south,
            Direction::West => x == 0 || self.cell_at(x - 1, y).wall_east,
        }
    }

    pub closed spec fn spec_walls(self, x: int, y: int) -> Directions {
        Directions {
            north: self.has_wall(x, y, Direction::North),
            east: self.has_wall(x, y, Direction::East),
            south: self.has_wall(x, y, Direction::South),
            west: self.has_wall(x, y, Direction::West),
        }
    }

    /// Two in-grid cells joined by an absent wall.
    pub closed spec fn open_between(self, a: (int, int), b: (int, int)) -> bool {
        &&& self.in_grid(a.0, a.1)
        &&& self.in_grid(b.0, b.1)
        &&& exists|d: Direction|
            b == Self::step_of(a.0, a.1, d) && !self.has_wall(a.0, a.1, d)
    }

    /// How many of the first `n` cells are visited.
    pub closed spec fn visited_count_to(cells: Seq<Cell>, n: int) -> int
        decreases n,
    {
        if n <= 0 {
            0
        } else {
            Self::visited_count_to(cells, n - 1) + if cells[n - 1].visited {
                1 as int
            } else {
                0
            }
        }
    }

    pub closed spec fn visited_count(self) -> int {
        Self::visited_count_to(self.cells@, self.cells@.len() as int)
    }

    /// How many internal walls are absent among the stored walls of the
    /// first `n` cells.  An east wall is internal unless the cell sits in
    /// the last column; a south wall unless it sits in the last row.
    pub closed spec fn removed_to(cells: Seq<Cell>, w: int, h: int, n: int) -> int
        decreases n,
    {
        if n <= 0 {
            0
        } else {
            Self::removed_to(cells, w, h, n - 1) + (if !cells[n - 1].wall_east && (n - 1) % w != w
                - 1 {
                1 as int
            } else {
                0
            }) + (if !cells[n - 1].wall_south && (n - 1) / w != h - 1 {
                1 as int
            } else {
                0
            })
        }
    }

    /// The number of removed internal walls.
    pub closed spec fn removed_walls(self) -> int {
        Self::removed_to(self.cells@, self.spec_width(), self.spec_height(), self.cells@.len() as int)
    }

    pub closed spec fn entrance_entry() -> OpenCell {
        OpenCell { cell: (0, 0), from: (0, 0) }
    }

    /// The pending frontier entries, oldest first.
    pub closed spec fn frontier(self) -> Seq<OpenCell> {
        self.open@
    }

    /// The stored cell records in row-major order.
    pub closed spec fn grid(self) -> Seq<Cell> {
        self.cells@
    }

    /// Some frontier entry still names an unvisited cell, so a
    /// construction step can make progress.
    pub closed spec fn has_pending(self) -> bool {
        exists|i: int|
            0 <= i < self.open@.len() && !self.visited_at(
                (#[trigger] self.open@[i]).cell.0 as int,
                self.open@[i].cell.1 as int,
            )
    }

    /// Some frontier entry names cell `(cx, cy)`.
    pub closed spec fn in_frontier(self, cx: int, cy: int) -> bool {
        exists|i: int|
            0 <= i < self.open@.len() && self.open@[i].cell.0 == cx && self.open@[i].cell.1 == cy
    }

    /// The bitmap dimensions: twice the cell grid plus one, so cells and
    /// walls each get a pixel.
    pub closed spec fn bmp_w(self) -> int {
        2 * self.spec_width() + 1
    }

    pub closed spec fn bmp_h(self) -> int {
        2 * self.spec_height() + 1
    }

    /// Whether bitmap pixel `(px, py)` is a wall pixel.  Cell centers are
    /// open; a corner pixel is walled next to any visited cell; a wall
    /// pixel between two cells is walled when the wall is present and at
    /// least one side has been visited; the pixel `(0, 1)` is the entrance
    /// opening, forced open.
    pub closed spec fn pixel_on(self, px: int, py: int) -> bool {
        let w = self.spec_width();
        let h = self.spec_height();
        if px == 0 && py == 1 {
            false
        } else if px % 2 == 1 && py % 2 == 1 {
            false
        } else if px % 2 == 1 {
            let x = px / 2;
            let b = py / 2;
            if b == 0 {
                self.visited_at(x, 0)
            } else if b == h {
                self.visited_at(x, h - 1) && self.cell_at(x, h - 1).wall_south
            } else {
                self.cell_at(x, b - 1).wall_south && (self.visited_at(x, b - 1) || self.visited_at(
                    x,
                    b,
                ))
            }
        } else if py % 2 == 1 {
            let a = px / 2;
            let y = py / 2;
            if a == 0 {
                self.visited_at(0, y)
            } else if a == w {
                self.visited_at(w - 1, y) && self.cell_at(w - 1, y).wall_east
            } else {
                self.cell_at(a - 1, y).wall_east && (self.visited_at(a - 1, y) || self.visited_at(
                    a,
                    y,
                ))
            }
        } else {
            let a = px / 2;
            let b = py / 2;
            ||| (self.in_grid(a - 1, b - 1) && self.visited_at(a - 1, b - 1))
            ||| (self.in_grid(a, b - 1) && self.visited_at(a, b - 1))
            ||| (self.in_grid(a - 1, b) && self.visited_at(a - 1, b))
            ||| (self.in_grid(a, b) && self.visited_at(a, b))
        }
    }

    /// The cached bitmap's contents, if one is cached.
    pub closed spec fn cached_bitmap(self) -> Option<Seq<bool>> {
        match self.bitmap {
            Some(b) => Some(bits_of(b)),
            None => None,
        }
    }

    /// A cached bitmap always reflects the current walls: pixel `(px, py)`
    /// sits at index `py * bmp_w + px` and equals `pixel_on`.
    pub closed spec fn bitmap_ok(self) -> bool {
        self.cached_bitmap() matches Some(s) ==> {
            &&& s.len() == self.bmp_w() * self.bmp_h()
            &&& forall|px: int, py: int|
                0 <= px < self.bmp_w() && 0 <= py < self.bmp_h() ==> s[py * self.bmp_w() + px]
                    == #[trigger] self.pixel_on(px, py)
        }
    }

    pub closed spec fn wf_dims(self) -> bool {
        &&& 1 <= self.spec_width()
        &&& 1 <= self.spec_height()
        &&& self.cells@.len() == self.spec_width() * self.spec_height()
        &&& (2 * self.spec_width() + 1) * (2 * self.spec_height() + 1) <= usize::MAX
    }

    pub closed spec fn wf_frontier(self) -> bool {
        &&& forall|i: int|
            0 <= i < self.open@.len() ==> self.in_grid(
                #[trigger] self.open@[i].cell.0 as int,
                self.open@[i].cell.1 as int,
            ) && self.in_grid(self.open@[i].from.0 as int, self.open@[i].from.1 as int)
        &&& self.visited_count() == 0 ==> self.open@ =~= seq![Self::entrance_entry()]
        &&& self.visited_count() > 0 ==> forall|i: int|
            0 <= i < self.open@.len() ==> self.visited_at(
                #[trigger] self.open@[i].from.0 as int,
                self.open@[i].from.1 as int,
            ) && (exists|d: Direction|
                (self.open@[i].cell.0 as int, self.open@[i].cell.1 as int) == Self::step_of(
                    self.open@[i].from.0 as int,
                    self.open@[i].from.1 as int,
                    d,
                ))
        &&& forall|x: int, y: int, d: Direction|
            #![trigger self.visited_at(x, y), Maze::step_of(x, y, d)]
            {
                let s = Self::step_of(x, y, d);
                self.in_grid(x, y) && self.visited_at(x, y) && self.in_grid(s.0, s.1)
                    && !self.visited_at(s.0, s.1) ==> self.in_frontier(s.0, s.1)
            }
    }

    pub closed spec fn wf_walls(self) -> bool {
        &&& forall|x: int, y: int, d: Direction|
            #![trigger self.visited_at(x, y), Maze::step_of(x, y, d)]
            {
                let s = Self::step_of(x, y, d);
                self.in_grid(x, y) && !self.visited_at(x, y) && self.in_grid(s.0, s.1)
                    ==> self.has_wall(x, y, d)
            }
        &&& self.visited_count() == 0 ==> self.removed_walls() == 0
        &&& self.visited_count() >= 1 ==> self.removed_walls() == self.visited_count() - 1
        &&& self.visited_count() > 0 ==> self.visited_at(0, 0)
    }

    pub closed spec fn wf_tree(self) -> bool {
        &&& self.tree@.len() == self.visited_count()
        &&& forall|k: int|
            0 <= k < self.tree@.len() ==> self.in_grid(
                (#[trigger] self.tree@[k]).0.0,
                self.tree@[k].0.1,
            ) && self.visited_at(self.tree@[k].0.0, self.tree@[k].0.1)
        &&& forall|k1: int, k2: int|
            0 <= k1 < self.tree@.len() && 0 <= k2 < self.tree@.len() && k1 != k2
                ==> (#[trigger] self.tree@[k1]).0 != (#[trigger] self.tree@[k2]).0
        &&& forall|x: int, y: int|
            self.in_grid(x, y) && #[trigger] self.visited_at(x, y) ==> exists|k: int|
                0 <= k < self.tree@.len() && (#[trigger] self.tree@[k]).0 == (x, y)
        &&& self.tree@.len() > 0 ==> self.tree@[0].0 == (0 as int, 0 as int)
        &&& forall|k: int|
            1 <= k < self.tree@.len() ==> {
                let p = (#[trigger] self.tree@[k]).1;
                &&& 0 <= p < k
                &&& self.open_between(self.tree@[k].0, self.tree@[p].0)
            }
    }

    /// The full invariant every public operation preserves.
    pub closed spec fn wf(self) -> bool {
        &&& self.wf_dims()
        &&& self.wf_frontier()
        &&& self.wf_walls()
        &&& self.wf_tree()
        &&& self.bitmap_ok()
    }

    /// The dimension facts every caller may rely on.
    pub proof fn lemma_wf_facts(self)
        requires
            self.wf(),
        ensures
            self.wf_dims(),
            1 <= self.spec_width(),
            1 <= self.spec_height(),
            (2 * self.spec_width() + 1) * (2 * self.spec_height() + 1) <= usize::MAX,
            self.spec_width() * self.spec_height() <= usize::MAX,
            self.grid().len() == self.spec_width() * self.spec_height(),
            self.bmp_w() == 2 * self.spec_width() + 1,
            self.bmp_h() == 2 * self.spec_height() + 1,
    {
        Self::lemma_grid_bound(self.spec_width(), self.spec_height());
    }

    /// A maze with every wall present except the exit (the east wall of
    /// the far corner cell), no cell visited, and the frontier seeded with
    /// the entrance cell.
    pub fn new(width: usize, height: usize) -> (r: Maze)
        requires
            1 <= width,
            1 <= height,
            (2 * width + 1) * (2 * height + 1) <= usize::MAX,
        ensures
            r.wf(),
            r.spec_width() == width,
            r.spec_height() == height,
            r.visited_count() == 0,
            forall|x: int, y: int, d: Direction|
                r.in_grid(x, y) ==> (#[trigger] r.has_wall(x, y, d) <==> !(x == width - 1 && y
                    == height - 1 && d == Direction::East)),
    {
        proof {
            Self::lemma_grid_bound(width as int, height as int);
        }
        let count = width * height;
        let mut cells: Vec<Cell> = Vec::new();
        let mut i: usize = 0;
        while i < count
            invariant
                i <= count,
                cells@.len() == i,
                forall|j: int|
                    0 <= j < i ==> (#[trigger] cells@[j]).wall_east && cells@[j].wall_south
                        && !cells@[j].visited,
            decreases count - i,
        {
            cells.push(Cell::default());
            i = i + 1;
        }
        // Exit: open the east wall of the far corner into the exterior.
        let exit = count - 1;
        let mut c = cells[exit];
        c.wall_east = false;
        cells.set(exit, c);

        let mut open: Vec<OpenCell> = Vec::new();
        open.push(OpenCell { cell: (0, 0), from: (0, 0) });

        let r = Maze { width, height, cells, open, bitmap: None, tree: Ghost(Seq::empty()) };
        proof {
            r.lemma_all_unvisited_counts();
            assert(r.open@ =~= seq![Self::entrance_entry()]);
            let w = width as int;
            let h = height as int;
            assert forall|x: int, y: int| r.in_grid(x, y) implies !(#[trigger] r.visited_at(
                x,
                y,
            )) by {
                Self::lemma_grid_index(w, h, x, y);
            }
            assert forall|x: int, y: int, d: Direction| r.in_grid(x, y) implies (
            #[trigger] r.has_wall(x, y, d) <==> !(x == w - 1 && y == h - 1 && d
                == Direction::East)) by {
                Self::lemma_grid_index(w, h, x, y);
                match d {
                    Direction::North => {
                        if y > 0 {
                            Self::lemma_grid_index(w, h, x, y - 1);
                        }
                    },
                    Direction::West => {
                        if x > 0 {
                            Self::lemma_grid_index(w, h, x - 1, y);
                        }
                    },
                    _ => {},
                }
            }
            assert forall|x: int, y: int, d: Direction|
                #![trigger r.visited_at(x, y), Maze::step_of(x, y, d)]
                {
                    let st = Self::step_of(x, y, d);
                    r.in_grid(x, y) && !r.visited_at(x, y) && r.in_grid(st.0, st.1) ==> r.has_wall(
                        x,
                        y,
                        d,
                    )
                } by {
                let st = Self::step_of(x, y, d);
                if r.in_grid(x, y) && r.in_grid(st.0, st.1) {
                    assert(r.has_wall(x, y, d) <==> !(x == w - 1 && y == h - 1 && d
                        == Direction::East));
                }
            }
        }
        r
    }

    /// The cell grid fits in a machine word whenever the finer bitmap grid
    /// does.
    pub(crate) proof fn lemma_grid_bound(w: int, h: int)
        requires
            1 <= w,
            1 <= h,
            (2 * w + 1) * (2 * h + 1) <= usize::MAX,
        ensures
            1 <= w * h <= usize::MAX,
    {
        assert(1 <= w * h && w * h <= (2 * w + 1) * (2 * h + 1)) by (nonlinear_arith)
            requires
                1 <= w,
                1 <= h,
        ;
    }

    /// Row-major indexing stays in range, and only the far corner cell
    /// maps to the last index.
    pub(crate) proof fn lemma_grid_index(w: int, h: int, x: int, y: int)
        requires
            1 <= w,
            1 <= h,
            0 <= x < w,
            0 <= y < h,
        ensures
            0 <= y * w + x < w * h,
            y * w + x == w * h - 1 <==> (x == w - 1 && y == h - 1),
            (y * w + x) % w == x,
            (y * w + x) / w == y,
    {
        assert(0 <= y * w + x && y * w + x < w * h && (y * w + x == w * h - 1 <==> (x == w - 1
            && y == h - 1)) && (y * w + x) % w == x && (y * w + x) / w == y)
            by (nonlinear_arith)
            requires
                1 <= w,
                1 <= h,
                0 <= x < w,
                0 <= y < h,
        ;
    }

    /// With no cell visited, both counters are zero.
    proof fn lemma_all_unvisited_counts(self)
        requires
            forall|j: int| 0 <= j < self.cells@.len() ==> !(#[trigger] self.cells@[j]).visited,
            forall|j: int|
                0 <= j < self.cells@.len() ==> ((#[trigger] self.cells@[j]).wall_east <==> !(
                j == self.cells@.len() - 1)),
            forall|j: int| 0 <= j < self.cells@.len() ==> (#[trigger] self.cells@[j]).wall_south,
            self.wf_dims(),
        ensures
            self.visited_count() == 0,
            self.removed_walls() == 0,
    {
        self.lemma_all_unvisited_counts_to(self.cells@.len() as int);
    }

    proof fn lemma_all_unvisited_counts_to(self, n: int)
        requires
            forall|j: int| 0 <= j < self.cells@.len() ==> !(#[trigger] self.cells@[j]).visited,
            forall|j: int|
                0 <= j < self.cells@.len() ==> ((#[trigger] self.cells@[j]).wall_east <==> !(
                j == self.cells@.len() - 1)),
            forall|j: int| 0 <= j < self.cells@.len() ==> (#[trigger] self.cells@[j]).wall_south,
            self.wf_dims(),
            n <= self.cells@.len(),
        ensures
            Self::visited_count_to(self.cells@, n) == 0,
            Self::removed_to(self.cells@, self.spec_width(), self.spec_height(), n) == 0,
        decreases n,
    {
        if n > 0 {
            self.lemma_all_unvisited_counts_to(n - 1);
            if n - 1 == self.cells@.len() - 1 {
                // The exit cell: its east wall is absent but sits on the
                // boundary column, so it is not an internal wall.
                assert((n - 1) % self.spec_width() == self.spec_width() - 1
                    && (n - 1) / self.spec_width() == self.spec_height() - 1) by (nonlinear_arith)
                    requires
                        n - 1 == self.spec_width() * self.spec_height() - 1,
                        1 <= self.spec_width(),
                        1 <= self.spec_height(),
                ;
            }
        }
    }

    /// The grid dimensions as (width, height).
    pub fn size(&self) -> (r: (usize, usize))
        ensures
            r.0 == self.spec_width(),
            r.1 == self.spec_height(),
    {
        (self.width, self.height)
    }

    fn cell_index(&self, x: usize, y: usize) -> (r: usize)
        requires
            self.wf_dims(),
            self.in_grid(x as int, y as int),
        ensures
            r == self.sidx(x as int, y as int),
            r < self.cells@.len(),
    {
        proof {
            Self::lemma_grid_bound(self.spec_width(), self.spec_height());
            Self::lemma_grid_index(self.spec_width(), self.spec_height(), x as int, y as int);
        }
        y * self.width + x
    }

    /// The wall set of cell `(x, y)` for all four directions, derived from
    /// the stored east/south bits of the cell and its neighbors.
    pub fn walls(&self, x: usize, y: usize) -> (r: Directions)
        requires
            self.wf_dims(),
            self.in_grid(x as int, y as int),
        ensures
            r == self.spec_walls(x as int, y as int),
    {
        let cell = self.cells[self.cell_index(x, y)];
        let east = cell.wall_east;
        let south = cell.wall_south;
        let west = x == 0 || self.cells[self.cell_index(x - 1, y)].wall_east;
        let north = y == 0 || self.cells[self.cell_index(x, y - 1)].wall_south;
        Directions { north, east, south, west }
    }

    /// The cell grid after visiting `(cx, cy)` discovered from `(fx, fy)`:
    /// the cell is marked visited and the one wall between the two cells is
    /// removed (no wall moves when the two coincide, as for the entrance).
    pub closed spec fn carve_cells(
        cells: Seq<Cell>,
        w: int,
        cx: int,
        cy: int,
        fx: int,
        fy: int,
    ) -> Seq<Cell> {
        let ci = cy * w + cx;
        let fi = fy * w + fx;
        let marked = cells.update(ci, Cell { visited: true, ..cells[ci] });
        if cx < fx {
            marked.update(ci, Cell { wall_east: false, ..marked[ci] })
        } else if cx > fx {
            marked.update(fi, Cell { wall_east: false, ..marked[fi] })
        } else if cy < fy {
            marked.update(ci, Cell { wall_south: false, ..marked[ci] })
        } else if cy > fy {
            marked.update(fi, Cell { wall_south: false, ..marked[fi] })
        } else {
            marked
        }
    }

    /// The frontier entries pushed for the directions `ds`, tried in
    /// order from cell `(x, y)`: one entry per in-grid unvisited neighbor.
    pub closed spec fn pushes(
        cells: Seq<Cell>,
        w: int,
        h: int,
        x: usize,
        y: usize,
        ds: Seq<Direction>,
    ) -> Seq<OpenCell>
        decreases ds.len(),
    {
        if ds.len() <= 0 {
            Seq::empty()
        } else {
            let d = ds.last();
            let st = Self::step_of(x as int, y as int, d);
            Self::pushes(cells, w, h, x, y, ds.drop_last()) + (if 0 <= st.0 < w && 0 <= st.1 < h
                && !cells[st.1 * w + st.0].visited {
                seq![OpenCell { cell: ((st.0 as usize), (st.1 as usize)), from: (x, y) }]
            } else {
                Seq::empty()
            })
        }
    }

    /// Updating one cell shifts the two counters by exactly the change in
    /// that cell, when the index lies below the prefix bound.
    proof fn lemma_counts_update(cells: Seq<Cell>, w: int, h: int, j: int, c: Cell, n: int)
        requires
            0 <= j < cells.len(),
            1 <= w,
            1 <= h,
            0 <= n <= cells.len(),
        ensures
            Self::visited_count_to(cells.update(j, c), n) == Self::visited_count_to(cells, n) + (
            if j < n {
                (if c.visited {
                    1 as int
                } else {
                    0
                }) - (if cells[j].visited {
                    1 as int
                } else {
                    0
                })
            } else {
                0
            }),
            Self::removed_to(cells.update(j, c), w, h, n) == Self::removed_to(cells, w, h, n) + (
            if j < n {
                ((if !c.wall_east && j % w != w - 1 {
                    1 as int
                } else {
                    0
                }) - (if !cells[j].wall_east && j % w != w - 1 {
                    1 as int
                } else {
                    0
                })) + ((if !c.wall_south && j / w != h - 1 {
                    1 as int
                } else {
                    0
                }) - (if !cells[j].wall_south && j / w != h - 1 {
                    1 as int
                } else {
                    0
                }))
            } else {
                0
            }),
        decreases n,
    {
        if n > 0 {
            Self::lemma_counts_update(cells, w, h, j, c, n - 1);
        }
    }

    /// Every entry produced by `pushes` names an in-grid unvisited
    /// neighbor of `(x, y)` and points back at `(x, y)`.
    proof fn lemma_pushes_sound(
        cells: Seq<Cell>,
        w: int,
        h: int,
        x: usize,
        y: usize,
        ds: Seq<Direction>,
    )
        requires
            0 <= x < w,
            0 <= y < h,
            w * h <= usize::MAX,
            cells.len() == w * h,
        ensures
            forall|i: int|
                0 <= i < Self::pushes(cells, w, h, x, y, ds).len() ==> {
                    let e = #[trigger] Self::pushes(cells, w, h, x, y, ds)[i];
                    &&& e.from == (x, y)
                    &&& 0 <= e.cell.0 < w
                    &&& 0 <= e.cell.1 < h
                    &&& !cells[e.cell.1 * w + e.cell.0].visited
                    &&& exists|d: Direction|
                        ((e.cell.0 as int, e.cell.1 as int) == Self::step_of(
                            x as int,
                            y as int,
                            d,
                        ))
                },
        decreases ds.len(),
    {
        if ds.len() > 0 {
            Self::lemma_pushes_sound(cells, w, h, x, y, ds.drop_last());
            let st = Self::step_of(x as int, y as int, ds.last());
            assert(w <= w * h && h <= w * h) by (nonlinear_arith)
                requires
                    1 <= w,
                    1 <= h,
            ;
            let whole = Self::pushes(cells, w, h, x, y, ds);
            let part = Self::pushes(cells, w, h, x, y, ds.drop_last());
            assert forall|i: int| 0 <= i < whole.len() implies {
                let e = #[trigger] whole[i];
                &&& e.from == (x, y)
                &&& 0 <= e.cell.0 < w
                &&& 0 <= e.cell.1 < h
                &&& !cells[e.cell.1 * w + e.cell.0].visited
                &&& exists|d: Direction|
                    ((e.cell.0 as int, e.cell.1 as int) == Self::step_of(x as int, y as int, d))
            } by {
                if i < part.len() {
                    assert(whole[i] == part[i]);
                } else {
                    let e = whole[i];
                    assert(e == OpenCell {
                        cell: ((st.0 as usize), (st.1 as usize)),
                        from: (x, y),
                    });
                    assert((e.cell.0 as int, e.cell.1 as int) == Self::step_of(
                        x as int,
                        y as int,
                        ds.last(),
                    ));
                }
            }
        }
    }

    /// For every direction tried, an in-grid unvisited neighbor that way
    /// gets a frontier entry.
    proof fn lemma_pushes_complete(
        cells: Seq<Cell>,
        w: int,
        h: int,
        x: usize,
        y: usize,
        ds: Seq<Direction>,
        d: Direction,
    )
        requires
            ds.contains(d),
            0 <= x < w,
            0 <= y < h,
            w * h <= usize::MAX,
            cells.len() == w * h,
        ensures
            ({
                let st = Self::step_of(x as int, y as int, d);
                (0 <= st.0 < w && 0 <= st.1 < h && !cells[st.1 * w + st.0].visited) ==> exists|
                    i: int,
                |
                    0 <= i < Self::pushes(cells, w, h, x, y, ds).len() && (#[trigger] Self::pushes(
                        cells,
                        w,
                        h,
                        x,
                        y,
                        ds,
                    )[i]).cell.0 == st.0 && Self::pushes(cells, w, h, x, y, ds)[i].cell.1 == st.1
            }),
        decreases ds.len(),
    {
        if ds.len() > 0 {
            let st = Self::step_of(x as int, y as int, d);
            let prefix = ds.drop_last();
            let whole = Self::pushes(cells, w, h, x, y, ds);
            let part = Self::pushes(cells, w, h, x, y, prefix);
            assert(w <= w * h && h <= w * h) by (nonlinear_arith)
                requires
                    1 <= w,
                    1 <= h,
            ;
            if ds.last() == d {
                if 0 <= st.0 < w && 0 <= st.1 < h && !cells[st.1 * w + st.0].visited {
                    assert(whole[part.len() as int].cell.0 == st.0);
                }
            }
            if prefix.contains(d) {
                Self::lemma_pushes_complete(cells, w, h, x, y, prefix, d);
                if 0 <= st.0 < w && 0 <= st.1 < h && !cells[st.1 * w + st.0].visited {
                    let i = choose|i: int|
                        0 <= i < part.len() && (#[trigger] part[i]).cell.0 == st.0
                            && part[i].cell.1 == st.1;
                    assert(whole[i] == part[i]);
                }
            } else {
                assert(ds.last() == d) by {
                    let j = choose|j: int| 0 <= j < ds.len() && ds[j] == d;
                    if j < ds.len() - 1 {
                        assert(prefix[j] == d);
                    }
                }
            }
        }
    }

    /// The exact relation between the state before and after one
    /// productive construction step: entry `k` of the old frontier was
    /// popped (everything above it being stale), its cell carved, and the
    /// frontier extended with the cell's unvisited neighbors in the order
    /// of `dirs`; `pk` is the certificate index of the discovering cell.
    pub closed spec fn step_rel(pre: Maze, post: Maze, k: int, pk: int, dirs: Seq<Direction>) -> bool {
        let e = pre.open@[k];
        let cx = e.cell.0 as int;
        let cy = e.cell.1 as int;
        let fx = e.from.0 as int;
        let fy = e.from.1 as int;
        let w = pre.spec_width();
        let h = pre.spec_height();
        &&& 0 <= k < pre.open@.len()
        &&& !pre.visited_at(cx, cy)
        &&& forall|j: int|
            k < j < pre.open@.len() ==> pre.visited_at(
                (#[trigger] pre.open@[j]).cell.0 as int,
                pre.open@[j].cell.1 as int,
            )
        &&& post.width == pre.width
        &&& post.height == pre.height
        &&& post.cells@ == Self::carve_cells(pre.cells@, w, cx, cy, fx, fy)
        &&& post.open@ == pre.open@.subrange(0, k) + Self::pushes(
            post.cells@,
            w,
            h,
            e.cell.0,
            e.cell.1,
            dirs,
        )
        &&& post.bitmap is None
        &&& post.tree@ == pre.tree@.push(((cx, cy), pk))
        &&& pre.visited_count() == 0 ==> pk == 0
        &&& pre.visited_count() > 0 ==> 0 <= pk < pre.tree@.len() && pre.tree@[pk].0 == (fx, fy)
    }

    proof fn lemma_count_bounds(cells: Seq<Cell>, n: int)
        requires
            0 <= n <= cells.len(),
        ensures
            0 <= Self::visited_count_to(cells, n) <= n,
        decreases n,
    {
        if n > 0 {
            Self::lemma_count_bounds(cells, n - 1);
        }
    }

    /// A visited cell below the prefix bound makes the count positive.
    proof fn lemma_count_pos(cells: Seq<Cell>, j: int, n: int)
        requires
            0 <= j < n <= cells.len(),
            cells[j].visited,
        ensures
            Self::visited_count_to(cells, n) >= 1,
        decreases n,
    {
        Self::lemma_count_bounds(cells, n - 1);
        if j < n - 1 {
            Self::lemma_count_pos(cells, j, n - 1);
        }
    }

    /// When every cell is visited the count is the whole prefix.
    proof fn lemma_count_full(cells: Seq<Cell>, n: int)
        requires
            0 <= n <= cells.len(),
            forall|j: int| 0 <= j < n ==> (#[trigger] cells[j]).visited,
        ensures
            Self::visited_count_to(cells, n) == n,
        decreases n,
    {
        if n > 0 {
            Self::lemma_count_full(cells, n - 1);
        }
    }

    /// One productive construction step preserves the invariant, visits
    /// exactly one more cell, and keeps the removed-wall counter one below
    /// the visited counter.
    /// After one step: one more cell visited, walls only removed, the
    /// wall invariant intact, and a fresh opening between the carved cell
    /// and its discoverer.
    #[verifier::rlimit(100)]
    #[verifier::spinoff_prover]
    proof fn lemma_step_cells(pre: Maze, post: Maze, k: int, pk: int, dirs: Seq<Direction>)
        requires
            pre.wf(),
            Self::step_rel(pre, post, k, pk, dirs),
        ensures
            post.wf_dims(),
            pre.visited_count() == 0 ==> k == 0 && pre.open@[k] == Self::entrance_entry(),
            !pre.visited_at(pre.open@[k].cell.0 as int, pre.open@[k].cell.1 as int),
            pre.in_grid(pre.open@[k].cell.0 as int, pre.open@[k].cell.1 as int),
            forall|x: int, y: int|
                post.in_grid(x, y) ==> (#[trigger] post.visited_at(x, y) == (pre.visited_at(x, y)
                    || (x == pre.open@[k].cell.0 as int && y == pre.open@[k].cell.1 as int))),
            forall|x: int, y: int, d: Direction|
                post.in_grid(x, y) ==> ((#[trigger] post.has_wall(x, y, d)) ==> pre.has_wall(
                    x,
                    y,
                    d,
                )),
            post.visited_count() == pre.visited_count() + 1,
            post.wf_walls(),
            pre.visited_count() > 0 ==> post.open_between(
                (pre.open@[k].cell.0 as int, pre.open@[k].cell.1 as int),
                (pre.open@[k].from.0 as int, pre.open@[k].from.1 as int),
            ),
            forall|a: (int, int), b: (int, int)|
                #[trigger] pre.open_between(a, b) ==> post.open_between(a, b),
    {
        let e = pre.open@[k];
        let cx = e.cell.0 as int;
        let cy = e.cell.1 as int;
        let fx = e.from.0 as int;
        let fy = e.from.1 as int;
        let w = pre.spec_width();
        let h = pre.spec_height();
        let ci = cy * w + cx;
        let fi = fy * w + fx;
        let cells0 = pre.cells@;
        let cells1 = post.cells@;
        Self::lemma_grid_bound(w, h);
        Self::lemma_grid_index(w, h, cx, cy);
        Self::lemma_grid_index(w, h, fx, fy);
        Self::lemma_count_bounds(cells0, cells0.len() as int);

        let entrance_case = pre.visited_count() == 0;
        if entrance_case {
            assert(pre.open@ =~= seq![Self::entrance_entry()]);
            assert(k == 0 && cx == 0 && cy == 0 && fx == 0 && fy == 0);
        } else {
            assert(pre.visited_at(fx, fy) && (exists|d: Direction|
                ((e.cell.0 as int, e.cell.1 as int) == Self::step_of(fx, fy, d))));
        }

        // Pointwise description of the carved cell grid.
        assert(cells1.len() == cells0.len());
        assert forall|j: int| 0 <= j < cells1.len() implies ((#[trigger] cells1[j]).visited == (
        cells0[j].visited || j == ci)) by {}
        assert forall|j: int| 0 <= j < cells1.len() implies ((#[trigger] cells1[j]).wall_east == (
        if (cx < fx && j == ci) || (cx > fx && j == fi) {
            false
        } else {
            cells0[j].wall_east
        })) by {}
        assert forall|j: int| 0 <= j < cells1.len() implies ((#[trigger] cells1[j]).wall_south == (
        if (cy < fy && j == ci) || (cy > fy && j == fi) {
            false
        } else {
            cells0[j].wall_south
        })) by {}

        // Coordinate-level consequences.
        assert forall|x: int, y: int| post.in_grid(x, y) implies (#[trigger] post.visited_at(x, y)
            == (pre.visited_at(x, y) || (x == cx && y == cy))) by {
            Self::lemma_grid_index(w, h, x, y);
        }
        assert forall|x: int, y: int, d: Direction| post.in_grid(x, y) implies ((
        #[trigger] post.has_wall(x, y, d)) ==> pre.has_wall(x, y, d)) by {
            Self::lemma_grid_index(w, h, x, y);
            let st = Self::step_of(x, y, d);
            if pre.in_grid(st.0, st.1) {
                Self::lemma_grid_index(w, h, st.0, st.1);
            }
        }

        // Counters: one more visited cell, and one wall removed unless
        // this is the entrance step.
        let marked = cells0.update(ci, Cell { visited: true, ..cells0[ci] });
        Self::lemma_counts_update(cells0, w, h, ci, Cell { visited: true, ..cells0[ci] },
            cells0.len() as int);
        if entrance_case {
            assert(cells1 == marked);
            assert(post.visited_count() == pre.visited_count() + 1);
            assert(post.removed_walls() == pre.removed_walls());
        } else {
            let dd = choose|d: Direction|
                ((e.cell.0 as int, e.cell.1 as int) == Self::step_of(fx, fy, d));
            assert((cx, cy) == Self::step_of(fx, fy, dd));
            if cx < fx {
                assert(fx == cx + 1 && fy == cy);
                assert(pre.has_wall(cx, cy, Direction::East)) by {
                    assert(Self::step_of(cx, cy, Direction::East) == (fx, fy));
                }
                assert(marked[ci].wall_east && ci % w != w - 1);
                Self::lemma_counts_update(marked, w, h, ci, Cell { wall_east: false, ..marked[ci] },
                    cells0.len() as int);
                assert(cells1 == marked.update(ci, Cell { wall_east: false, ..marked[ci] }));
                assert(!post.has_wall(cx, cy, Direction::East));
                assert((fx, fy) == Self::step_of(cx, cy, Direction::East));
            } else if cx > fx {
                assert(fx == cx - 1 && fy == cy);
                assert(pre.has_wall(cx, cy, Direction::West)) by {
                    assert(Self::step_of(cx, cy, Direction::West) == (fx, fy));
                }
                assert(marked[fi].wall_east && fi % w != w - 1);
                Self::lemma_counts_update(marked, w, h, fi, Cell { wall_east: false, ..marked[fi] },
                    cells0.len() as int);
                assert(cells1 == marked.update(fi, Cell { wall_east: false, ..marked[fi] }));
                assert(!post.has_wall(cx, cy, Direction::West));
                assert((fx, fy) == Self::step_of(cx, cy, Direction::West));
            } else if cy < fy {
                assert(fy == cy + 1 && fx == cx);
                assert(pre.has_wall(cx, cy, Direction::South)) by {
                    assert(Self::step_of(cx, cy, Direction::South) == (fx, fy));
                }
                assert(marked[ci].wall_south && ci / w != h - 1);
                Self::lemma_counts_update(marked, w, h, ci,
                    Cell { wall_south: false, ..marked[ci] }, cells0.len() as int);
                assert(cells1 == marked.update(ci, Cell { wall_south: false, ..marked[ci] }));
                assert(!post.has_wall(cx, cy, Direction::South));
                assert((fx, fy) == Self::step_of(cx, cy, Direction::South));
            } else {
                assert(cy > fy);
                assert(fy == cy - 1 && fx == cx);
                assert(pre.has_wall(cx, cy, Direction::North)) by {
                    assert(Self::step_of(cx, cy, Direction::North) == (fx, fy));
                }
                assert(marked[fi].wall_south && fi / w != h - 1);
                Self::lemma_counts_update(marked, w, h, fi,
                    Cell { wall_south: false, ..marked[fi] }, cells0.len() as int);
                assert(cells1 == marked.update(fi, Cell { wall_south: false, ..marked[fi] }));
                assert(!post.has_wall(cx, cy, Direction::North));
                assert((fx, fy) == Self::step_of(cx, cy, Direction::North));
            }
            assert(post.visited_count() == pre.visited_count() + 1);
            assert(post.removed_walls() == pre.removed_walls() + 1);
            assert(post.open_between((cx, cy), (fx, fy)));
        }

        // Unvisited cells keep every internal wall.
        assert forall|x: int, y: int, d: Direction|
            #![trigger post.visited_at(x, y), Maze::step_of(x, y, d)]
            {
                let st = Self::step_of(x, y, d);
                post.in_grid(x, y) && !post.visited_at(x, y) && post.in_grid(st.0, st.1)
                    ==> post.has_wall(x, y, d)
            } by {
            let st = Self::step_of(x, y, d);
            if post.in_grid(x, y) && !post.visited_at(x, y) && post.in_grid(st.0, st.1) {
                Self::lemma_grid_index(w, h, x, y);
                Self::lemma_grid_index(w, h, st.0, st.1);
                assert(!pre.visited_at(x, y));
                assert(pre.has_wall(x, y, d));
                assert((x, y) != (cx, cy));
                if !entrance_case {
                    assert(pre.visited_at(fx, fy));
                    assert((x, y) != (fx, fy));
                }
                assert(post.has_wall(x, y, d));
            }
        }

        // The entrance stays visited.
        assert(post.visited_at(0, 0)) by {
            if entrance_case {
            } else {
                assert(pre.visited_at(0, 0));
            }
        }
        assert(post.wf_walls());

        // Openings persist: carving only removes walls.
        assert forall|a: (int, int), b: (int, int)| #[trigger] pre.open_between(a, b)
            implies post.open_between(a, b) by {
            let d = choose|d: Direction|
                b == Self::step_of(a.0, a.1, d) && !pre.has_wall(a.0, a.1, d);
            assert(!post.has_wall(a.0, a.1, d));
        }
    }

    /// After one step every frontier entry names in-grid cells.
    #[verifier::rlimit(100)]
    #[verifier::spinoff_prover]
    proof fn lemma_step_frontier_grid(pre: Maze, post: Maze, k: int, pk: int, dirs: Seq<Direction>)
        requires
            pre.wf(),
            Self::step_rel(pre, post, k, pk, dirs),
        ensures
            post.visited_count() > 0,
            forall|i: int|
                0 <= i < post.open@.len() ==> post.in_grid(
                    #[trigger] post.open@[i].cell.0 as int,
                    post.open@[i].cell.1 as int,
                ) && post.in_grid(post.open@[i].from.0 as int, post.open@[i].from.1 as int),
    {
        let e = pre.open@[k];
        let cx = e.cell.0 as int;
        let cy = e.cell.1 as int;
        let w = pre.spec_width();
        let h = pre.spec_height();
        let cells1 = post.cells@;
        Self::lemma_grid_bound(w, h);
        Self::lemma_grid_index(w, h, cx, cy);
        Self::lemma_count_bounds(pre.cells@, pre.cells@.len() as int);
        Self::lemma_step_cells(pre, post, k, pk, dirs);
        Self::lemma_pushes_sound(cells1, w, h, e.cell.0, e.cell.1, dirs);
        let pushed = Self::pushes(cells1, w, h, e.cell.0, e.cell.1, dirs);
        assert forall|i: int| 0 <= i < post.open@.len() implies post.in_grid(
            #[trigger] post.open@[i].cell.0 as int,
            post.open@[i].cell.1 as int,
        ) && post.in_grid(post.open@[i].from.0 as int, post.open@[i].from.1 as int) by {
            if i < k {
                assert(post.open@[i] == pre.open@[i]);
            } else {
                assert(post.open@[i] == pushed[i - k]);
            }
        }
    }

    /// After one step every frontier entry points back at a visited
    /// neighbor.
    #[verifier::rlimit(100)]
    #[verifier::spinoff_prover]
    proof fn lemma_step_frontier_from(pre: Maze, post: Maze, k: int, pk: int, dirs: Seq<Direction>)
        requires
            pre.wf(),
            Self::step_rel(pre, post, k, pk, dirs),
        ensures
            forall|i: int|
                0 <= i < post.open@.len() ==> post.visited_at(
                    #[trigger] post.open@[i].from.0 as int,
                    post.open@[i].from.1 as int,
                ) && (exists|d: Direction|
                    (post.open@[i].cell.0 as int, post.open@[i].cell.1 as int) == Self::step_of(
                        post.open@[i].from.0 as int,
                        post.open@[i].from.1 as int,
                        d,
                    )),
    {
        let e = pre.open@[k];
        let cx = e.cell.0 as int;
        let cy = e.cell.1 as int;
        let w = pre.spec_width();
        let h = pre.spec_height();
        let cells1 = post.cells@;
        Self::lemma_grid_bound(w, h);
        Self::lemma_grid_index(w, h, cx, cy);
        Self::lemma_count_bounds(pre.cells@, pre.cells@.len() as int);
        Self::lemma_step_cells(pre, post, k, pk, dirs);
        Self::lemma_pushes_sound(cells1, w, h, e.cell.0, e.cell.1, dirs);
        let pushed = Self::pushes(cells1, w, h, e.cell.0, e.cell.1, dirs);
        let entrance_case = pre.visited_count() == 0;
        assert forall|i: int| 0 <= i < post.open@.len() implies post.visited_at(
            #[trigger] post.open@[i].from.0 as int,
            post.open@[i].from.1 as int,
        ) && (exists|d: Direction|
            (post.open@[i].cell.0 as int, post.open@[i].cell.1 as int) == Self::step_of(
                post.open@[i].from.0 as int,
                post.open@[i].from.1 as int,
                d,
            )) by {
            if i < k {
                assert(post.open@[i] == pre.open@[i]);
                if entrance_case {
                    assert(pre.open@ =~= seq![Self::entrance_entry()]);
                    assert(false);
                } else {
                    assert(pre.visited_at(
                        pre.open@[i].from.0 as int,
                        pre.open@[i].from.1 as int,
                    ));
                }
            } else {
                assert(post.open@[i] == pushed[i - k]);
                assert(post.visited_at(cx, cy));
            }
        }
    }

    /// After one step every visited/unvisited boundary is still covered
    /// by some frontier entry.
    #[verifier::rlimit(100)]
    #[verifier::spinoff_prover]
    proof fn lemma_step_frontier_complete(pre: Maze, post: Maze, k: int, pk: int, dirs: Seq<
        Direction,
    >)
        requires
            pre.wf(),
            Self::step_rel(pre, post, k, pk, dirs),
            forall|d: Direction| dirs.contains(d),
        ensures
            forall|x: int, y: int, d: Direction|
                #![trigger post.visited_at(x, y), Maze::step_of(x, y, d)]
                {
                    let st = Self::step_of(x, y, d);
                    post.in_grid(x, y) && post.visited_at(x, y) && post.in_grid(st.0, st.1)
                        && !post.visited_at(st.0, st.1) ==> post.in_frontier(st.0, st.1)
                },
    {
        let e = pre.open@[k];
        let cx = e.cell.0 as int;
        let cy = e.cell.1 as int;
        let w = pre.spec_width();
        let h = pre.spec_height();
        let cells1 = post.cells@;
        Self::lemma_step_cells(pre, post, k, pk, dirs);
        Self::lemma_grid_bound(w, h);
        Self::lemma_grid_index(w, h, cx, cy);
        let pushed = Self::pushes(cells1, w, h, e.cell.0, e.cell.1, dirs);

        assert forall|x: int, y: int, d: Direction|
            #![trigger post.visited_at(x, y), Maze::step_of(x, y, d)]
            {
                let st = Self::step_of(x, y, d);
                post.in_grid(x, y) && post.visited_at(x, y) && post.in_grid(st.0, st.1)
                    && !post.visited_at(st.0, st.1) ==> post.in_frontier(st.0, st.1)
            } by {
            let st = Self::step_of(x, y, d);
            if post.in_grid(x, y) && post.visited_at(x, y) && post.in_grid(st.0, st.1)
                && !post.visited_at(st.0, st.1) {
                Self::lemma_grid_index(w, h, st.0, st.1);
                if x == cx && y == cy {
                    Self::lemma_pushes_complete(cells1, w, h, e.cell.0, e.cell.1, dirs, d);
                    assert(!cells1[st.1 * w + st.0].visited) by {
                        assert(!post.visited_at(st.0, st.1));
                    }
                    let i = choose|i: int|
                        0 <= i < pushed.len() && (#[trigger] pushed[i]).cell.0 == st.0
                            && pushed[i].cell.1 == st.1;
                    assert(post.open@[k + i] == pushed[i]);
                    assert(post.in_frontier(st.0, st.1));
                } else {
                    assert(pre.visited_at(x, y));
                    assert(!pre.visited_at(st.0, st.1));
                    assert(pre.in_frontier(st.0, st.1));
                    let i = choose|i: int|
                        0 <= i < pre.open@.len() && pre.open@[i].cell.0 == st.0
                            && pre.open@[i].cell.1 == st.1;
                    if i > k {
                        assert(pre.visited_at(
                            (pre.open@[i]).cell.0 as int,
                            pre.open@[i].cell.1 as int,
                        ));
                        assert(false);
                    } else if i == k {
                        assert(st.0 == cx && st.1 == cy);
                        assert(false);
                    } else {
                        assert(post.open@[i] == pre.open@[i]);
                        assert(post.in_frontier(st.0, st.1));
                    }
                }
            }
        }
    }

    /// After one step the frontier invariant holds again.
    proof fn lemma_step_frontier(pre: Maze, post: Maze, k: int, pk: int, dirs: Seq<Direction>)
        requires
            pre.wf(),
            Self::step_rel(pre, post, k, pk, dirs),
            forall|d: Direction| dirs.contains(d),
        ensures
            post.wf_frontier(),
    {
        Self::lemma_step_frontier_grid(pre, post, k, pk, dirs);
        Self::lemma_step_frontier_from(pre, post, k, pk, dirs);
        Self::lemma_step_frontier_complete(pre, post, k, pk, dirs);
    }

    /// After one step the certificate is still a spanning record of the
    /// visited region: distinct cells, rooted at the entrance, every
    /// entry linked by an opening to an earlier one.
    #[verifier::rlimit(100)]
    #[verifier::spinoff_prover]
    proof fn lemma_step_tree(pre: Maze, post: Maze, k: int, pk: int, dirs: Seq<Direction>)
        requires
            pre.wf(),
            Self::step_rel(pre, post, k, pk, dirs),
        ensures
            post.wf_tree(),
    {
        let e = pre.open@[k];
        let cx = e.cell.0 as int;
        let cy = e.cell.1 as int;
        let fx = e.from.0 as int;
        let fy = e.from.1 as int;
        Self::lemma_step_cells(pre, post, k, pk, dirs);
        Self::lemma_count_bounds(pre.cells@, pre.cells@.len() as int);
        let entrance_case = pre.visited_count() == 0;
        let t0 = pre.tree@;
        let t1 = post.tree@;
        assert(t1.len() == post.visited_count());
        assert forall|k2: int| 0 <= k2 < t1.len() implies post.in_grid(
            (#[trigger] t1[k2]).0.0,
            t1[k2].0.1,
        ) && post.visited_at(t1[k2].0.0, t1[k2].0.1) by {
            if k2 < t0.len() {
                assert(t1[k2] == t0[k2]);
                assert(pre.visited_at(t0[k2].0.0, t0[k2].0.1));
            } else {
                assert(t1[k2] == ((cx, cy), pk));
            }
        }
        assert forall|k1: int, k2: int|
            0 <= k1 < t1.len() && 0 <= k2 < t1.len() && k1 != k2 implies (#[trigger] t1[k1]).0 != (
            #[trigger] t1[k2]).0 by {
            if k1 < t0.len() && k2 < t0.len() {
                assert(t1[k1] == t0[k1] && t1[k2] == t0[k2]);
            } else if k1 < t0.len() {
                assert(t1[k2] == ((cx, cy), pk));
                assert(pre.visited_at(t0[k1].0.0, t0[k1].0.1));
            } else {
                assert(t1[k1] == ((cx, cy), pk));
                assert(k2 < t0.len());
                assert(pre.visited_at(t0[k2].0.0, t0[k2].0.1));
            }
        }
        assert forall|x: int, y: int|
            post.in_grid(x, y) && #[trigger] post.visited_at(x, y) implies exists|k2: int|
            0 <= k2 < t1.len() && (#[trigger] t1[k2]).0 == (x, y) by {
            if x == cx && y == cy {
                assert(t1[t0.len() as int].0 == (x, y));
            } else {
                assert(pre.visited_at(x, y));
                let k2 = choose|k2: int| 0 <= k2 < t0.len() && (#[trigger] t0[k2]).0 == (x, y);
                assert(t1[k2].0 == (x, y));
            }
        }
        assert(t1.len() > 0 ==> t1[0].0 == (0 as int, 0 as int)) by {
            if t0.len() > 0 {
                assert(t1[0] == t0[0]);
            } else {
                assert(entrance_case);
                assert(pre.open@ =~= seq![Self::entrance_entry()]);
                assert(t1[0] == ((cx, cy), pk));
            }
        }
        assert forall|k2: int| 1 <= k2 < t1.len() implies {
            let p = (#[trigger] t1[k2]).1;
            &&& 0 <= p < k2
            &&& post.open_between(t1[k2].0, t1[p].0)
        } by {
            if k2 < t0.len() {
                assert(t1[k2] == t0[k2]);
                let p = t0[k2].1;
                assert(t1[p] == t0[p]);
                assert(pre.open_between(t0[k2].0, t0[p].0));
                assert(post.open_between(t0[k2].0, t0[p].0));
            } else {
                assert(t1[k2] == ((cx, cy), pk));
                assert(!entrance_case);
                assert(t1[pk] == t0[pk] && t0[pk].0 == (fx, fy));
                assert(post.open_between((cx, cy), (fx, fy)));
            }
        }
        assert(post.wf_tree());
    }

    /// One productive construction step preserves the invariant and
    /// visits exactly one more cell.
    proof fn lemma_step_preserves_wf(pre: Maze, post: Maze, k: int, pk: int, dirs: Seq<Direction>)
        requires
            pre.wf(),
            Self::step_rel(pre, post, k, pk, dirs),
            forall|d: Direction| dirs.contains(d),
        ensures
            post.wf(),
            post.visited_count() == pre.visited_count() + 1,
    {
        Self::lemma_step_cells(pre, post, k, pk, dirs);
        Self::lemma_step_frontier(pre, post, k, pk, dirs);
        Self::lemma_step_tree(pre, post, k, pk, dirs);
    }


    /// `p` is a walk from `a` to `b` through openings in the walls.
    pub closed spec fn path_ok(self, p: Seq<(int, int)>, a: (int, int), b: (int, int)) -> bool {
        &&& p.len() >= 1
        &&& p[0] == a
        &&& p[p.len() - 1] == b
        &&& forall|i: int| 0 <= i < p.len() - 1 ==> self.open_between(#[trigger] p[i], p[i + 1])
    }

    /// Cell `b` can be reached from cell `a` through openings in the walls.
    pub closed spec fn connected(self, a: (int, int), b: (int, int)) -> bool {
        exists|p: Seq<(int, int)>| self.path_ok(p, a, b)
    }

    /// An opening can be walked in both directions: each side's view of
    /// the shared wall is derived from the same stored bit.
    proof fn lemma_open_between_sym(self, a: (int, int), b: (int, int))
        requires
            self.open_between(a, b),
        ensures
            self.open_between(b, a),
    {
        let d = choose|d: Direction|
            b == Self::step_of(a.0, a.1, d) && !self.has_wall(a.0, a.1, d);
        let o = d.spec_opposite();
        assert(a == Self::step_of(b.0, b.1, o));
        assert(!self.has_wall(b.0, b.1, o));
    }

    /// Every certificate entry is connected to the entrance.
    #[verifier::rlimit(100)]
    #[verifier::spinoff_prover]
    proof fn lemma_tree_connected(self, k: int)
        requires
            self.wf_dims(),
            self.wf_tree(),
            0 <= k < self.tree@.len(),
        ensures
            self.connected((0, 0), self.tree@[k].0),
        decreases k,
    {
        if k == 0 {
            let p = seq![(0 as int, 0 as int)];
            assert(self.path_ok(p, (0, 0), self.tree@[0].0));
        } else {
            let pk = self.tree@[k].1;
            self.lemma_tree_connected(pk);
            let q = choose|q: Seq<(int, int)>| self.path_ok(q, (0, 0), self.tree@[pk].0);
            self.lemma_open_between_sym(self.tree@[k].0, self.tree@[pk].0);
            let q2 = q.push(self.tree@[k].0);
            assert forall|i: int| 0 <= i < q2.len() - 1 implies self.open_between(
                #[trigger] q2[i],
                q2[i + 1],
            ) by {
                if i < q.len() - 1 {
                    assert(q2[i] == q[i] && q2[i + 1] == q[i + 1]);
                } else {
                    assert(q2[i] == self.tree@[pk].0 && q2[i + 1] == self.tree@[k].0);
                }
            }
            assert(self.path_ok(q2, (0, 0), self.tree@[k].0));
        }
    }

    /// When no visited cell has an unvisited in-grid neighbor and the
    /// entrance is visited, every cell is visited: walk from the entrance
    /// along the row and then down the column.
    proof fn lemma_reach_visited(self, x: int, y: int)
        requires
            self.wf_dims(),
            self.visited_at(0, 0),
            forall|x2: int, y2: int, d: Direction|
                #![trigger self.visited_at(x2, y2), Maze::step_of(x2, y2, d)]
                {
                    let st = Self::step_of(x2, y2, d);
                    self.in_grid(x2, y2) && self.visited_at(x2, y2) && self.in_grid(st.0, st.1)
                        ==> self.visited_at(st.0, st.1)
                },
            self.in_grid(x, y),
        ensures
            self.visited_at(x, y),
        decreases x + y,
    {
        if y > 0 {
            self.lemma_reach_visited(x, y - 1);
            assert(Self::step_of(x, y - 1, Direction::South) == (x, y));
        } else if x > 0 {
            self.lemma_reach_visited(x - 1, 0);
            assert(Self::step_of(x - 1, 0, Direction::East) == (x, y));
        }
    }

    /// Pops frontier entries until one names an unvisited cell; stale
    /// entries for already-visited cells are discarded.
    fn pop_unvisited(&mut self) -> (r: Option<OpenCell>)
        requires
            old(self).wf(),
        ensures
            final(self).width == old(self).width,
            final(self).height == old(self).height,
            final(self).cells == old(self).cells,
            final(self).bitmap == old(self).bitmap,
            final(self).tree == old(self).tree,
            r is None ==> final(self).open@.len() == 0 && (forall|j: int|
                0 <= j < old(self).open@.len() ==> old(self).visited_at(
                    (#[trigger] old(self).open@[j]).cell.0 as int,
                    old(self).open@[j].cell.1 as int,
                )),
            r matches Some(e) ==> exists|k: int|
                {
                    &&& 0 <= k < old(self).open@.len()
                    &&& e == old(self).open@[k]
                    &&& !old(self).visited_at(e.cell.0 as int, e.cell.1 as int)
                    &&& #[trigger] final(self).open@ =~= old(self).open@.subrange(0, k)
                    &&& forall|j: int|
                        k < j < old(self).open@.len() ==> old(self).visited_at(
                            (#[trigger] old(self).open@[j]).cell.0 as int,
                            old(self).open@[j].cell.1 as int,
                        )
                },
    {
        loop
            invariant
                self.width == old(self).width,
                self.height == old(self).height,
                self.cells == old(self).cells,
                self.bitmap == old(self).bitmap,
                self.tree == old(self).tree,
                self.wf_dims(),
                self.open@.len() <= old(self).open@.len(),
                self.open@ =~= old(self).open@.subrange(0, self.open@.len() as int),
                forall|j: int|
                    self.open@.len() <= j < old(self).open@.len() ==> old(self).visited_at(
                        (#[trigger] old(self).open@[j]).cell.0 as int,
                        old(self).open@[j].cell.1 as int,
                    ),
                forall|i: int|
                    0 <= i < self.open@.len() ==> self.in_grid(
                        #[trigger] self.open@[i].cell.0 as int,
                        self.open@[i].cell.1 as int,
                    ),
            decreases self.open@.len(),
        {
            if self.open.len() == 0 {
                return None;
            }
            let ghost pre = self.open@;
            let e = self.open.pop().unwrap();
            proof {
                assert(self.open@ =~= old(self).open@.subrange(0, self.open@.len() as int));
                assert(e == old(self).open@[self.open@.len() as int]);
            }
            let i = self.cell_index(e.cell.0, e.cell.1);
            if !self.cells[i].visited {
                proof {
                    let k = self.open@.len() as int;
                    assert(0 <= k < old(self).open@.len() && e == old(self).open@[k] && !old(
                        self,
                    ).visited_at(e.cell.0 as int, e.cell.1 as int) && self.open@ =~= old(
                        self,
                    ).open@.subrange(0, k));
                }
                return Some(e);
            }
        }
    }

    /// One construction step with the direction order fixed by the
    /// caller: pop frontier entries until an unvisited cell appears, visit
    /// it, remove the wall toward the cell that discovered it, and push
    /// its unvisited neighbors in the order of `dirs`.  Returns false,
    /// changing no wall, exactly when generation is complete; the maze is
    /// then fully visited, has exactly `width * height - 1` internal walls
    /// removed, and every cell is connected to the entrance.
    pub fn build_next_with(&mut self, dirs: [Direction; 4]) -> (r: bool)
        requires
            old(self).wf(),
            forall|d: Direction| dirs@.contains(d),
        ensures
            final(self).wf(),
            final(self).spec_width() == old(self).spec_width(),
            final(self).spec_height() == old(self).spec_height(),
            r <==> old(self).has_pending(),
            r ==> final(self).visited_count() == old(self).visited_count() + 1,
            r ==> exists|k: int, pk: int|
                #[trigger] Self::step_rel(*old(self), *final(self), k, pk, dirs@),
            !r ==> final(self).grid() == old(self).grid() && final(self).frontier().len() == 0,
            !r ==> forall|x: int, y: int|
                final(self).in_grid(x, y) ==> final(self).visited_at(x, y),
            !r ==> final(self).removed_walls() == final(self).spec_width() * final(self).spec_height() - 1,
            !r ==> forall|x: int, y: int|
                final(self).in_grid(x, y) ==> final(self).connected((0, 0), (x, y)),
    {
        let ghost pre = *old(self);
        let ghost w = pre.spec_width();
        let ghost h = pre.spec_height();
        let popped = self.pop_unvisited();
        match popped {
            None => {
                proof {
                    // No pending entry was unvisited, so no step was taken.
                    assert forall|i: int|
                        0 <= i < pre.open@.len() implies pre.visited_at(
                        (#[trigger] pre.open@[i]).cell.0 as int,
                        pre.open@[i].cell.1 as int,
                    ) by {}
                    // The entrance has been visited: otherwise the seed
                    // entry would still be pending.
                    if pre.visited_count() == 0 {
                        assert(pre.open@ =~= seq![Self::entrance_entry()]);
                        assert(pre.open@[0] == Self::entrance_entry());
                        assert(pre.visited_at(
                            (pre.open@[0]).cell.0 as int,
                            pre.open@[0].cell.1 as int,
                        ));
                        assert(pre.visited_at(0, 0));
                        Self::lemma_grid_index(w, h, 0, 0);
                        Self::lemma_count_pos(pre.cells@, 0, pre.cells@.len() as int);
                        assert(false);
                    }
                    assert(self.visited_at(0, 0));
                    // An unvisited cell next to a visited one would still
                    // be in the frontier, which all referred to visited
                    // cells; so the visited region has no boundary and
                    // covers the grid.
                    assert forall|x2: int, y2: int, d: Direction|
                        #![trigger self.visited_at(x2, y2), Maze::step_of(x2, y2, d)]
                        {
                            let st = Self::step_of(x2, y2, d);
                            self.in_grid(x2, y2) && self.visited_at(x2, y2) && self.in_grid(
                                st.0,
                                st.1,
                            ) ==> self.visited_at(st.0, st.1)
                        } by {
                        let st = Self::step_of(x2, y2, d);
                        if self.in_grid(x2, y2) && self.visited_at(x2, y2) && self.in_grid(
                            st.0,
                            st.1,
                        ) && !self.visited_at(st.0, st.1) {
                            assert(pre.visited_at(x2, y2));
                            assert(!pre.visited_at(st.0, st.1));
                            assert(pre.in_frontier(st.0, st.1));
                            let i = choose|i: int|
                                0 <= i < pre.open@.len() && pre.open@[i].cell.0 == st.0
                                    && pre.open@[i].cell.1 == st.1;
                            assert(pre.visited_at(
                                (pre.open@[i]).cell.0 as int,
                                pre.open@[i].cell.1 as int,
                            ));
                            assert(false);
                        }
                    }
                    assert forall|x: int, y: int| self.in_grid(x, y) implies self.visited_at(
                        x,
                        y,
                    ) by {
                        self.lemma_reach_visited(x, y);
                    }
                    // Full visit count, so the wall counter sits at its
                    // spanning value.
                    assert forall|j: int|
                        0 <= j < self.cells@.len() implies (#[trigger] self.cells@[j]).visited by {
                        let x = j % w;
                        let y = j / w;
                        assert(0 <= x < w && 0 <= y < h && y * w + x == j) by (nonlinear_arith)
                            requires
                                1 <= w,
                                1 <= h,
                                0 <= j < w * h,
                                x == j % w,
                                y == j / w,
                        ;
                        assert(self.visited_at(x, y));
                    }
                    Self::lemma_count_full(self.cells@, self.cells@.len() as int);
                    // The frontier invariant holds of the drained state.
                    assert(self.visited_count() == self.cells@.len());
                    assert(self.visited_count() > 0);
                    assert(self.wf_frontier());
                    assert(self.wf_walls());
                    // The certificate is untouched and still covers every
                    // visited cell.
                    assert(self.tree@ == pre.tree@);
                    assert forall|k2: int| 0 <= k2 < self.tree@.len() implies self.in_grid(
                        (#[trigger] self.tree@[k2]).0.0,
                        self.tree@[k2].0.1,
                    ) && self.visited_at(self.tree@[k2].0.0, self.tree@[k2].0.1) by {
                        assert(self.tree@[k2] == pre.tree@[k2]);
                        assert(pre.visited_at(pre.tree@[k2].0.0, pre.tree@[k2].0.1));
                    }
                    assert forall|k1: int, k2: int|
                        0 <= k1 < self.tree@.len() && 0 <= k2 < self.tree@.len() && k1
                        != k2 implies (#[trigger] self.tree@[k1]).0 != (
                    #[trigger] self.tree@[k2]).0 by {
                        assert(self.tree@[k1] == pre.tree@[k1]);
                        assert(self.tree@[k2] == pre.tree@[k2]);
                        assert(pre.tree@[k1].0 != pre.tree@[k2].0);
                    }
                    assert forall|x: int, y: int|
                        self.in_grid(x, y) && #[trigger] self.visited_at(x, y) implies exists|
                        k2: int,
                    |
                        0 <= k2 < self.tree@.len() && (#[trigger] self.tree@[k2]).0 == (
                        x,
                        y,
                        ) by {
                        assert(pre.visited_at(x, y));
                        let k2 = choose|k2: int|
                            0 <= k2 < pre.tree@.len() && (#[trigger] pre.tree@[k2]).0 == (x, y);
                        assert(self.tree@[k2].0 == (x, y));
                    }
                    if self.tree@.len() > 0 {
                        assert(self.tree@[0] == pre.tree@[0]);
                    }
                    assert forall|k2: int| 1 <= k2 < self.tree@.len() implies {
                        let p = (#[trigger] self.tree@[k2]).1;
                        &&& 0 <= p < k2
                        &&& self.open_between(self.tree@[k2].0, self.tree@[p].0)
                    } by {
                        assert(self.tree@[k2] == pre.tree@[k2]);
                        assert(pre.open_between(pre.tree@[k2].0, pre.tree@[pre.tree@[k2].1].0));
                    }
                    assert(self.wf_tree());
                    assert(self.bitmap_ok()) by {
                        if self.bitmap is Some {
                            let s2 = self.cached_bitmap().unwrap();
                            assert(self.cached_bitmap() == pre.cached_bitmap());
                            assert forall|px: int, py: int|
                                0 <= px < self.bmp_w() && 0 <= py < self.bmp_h() implies s2[py
                                * self.bmp_w() + px] == #[trigger] self.pixel_on(px, py) by {
                                assert(s2[py * pre.bmp_w() + px] == pre.pixel_on(px, py));
                                assert(self.pixel_on(px, py) == pre.pixel_on(px, py));
                            }
                        }
                    }
                    assert forall|x: int, y: int| self.in_grid(x, y) implies self.connected(
                        (0, 0),
                        (x, y),
                    ) by {
                        let k2 = choose|k2: int|
                            0 <= k2 < self.tree@.len() && (#[trigger] self.tree@[k2]).0 == (x, y);
                        self.lemma_tree_connected(k2);
                    }
                }
                false
            },
            Some(e) => {
                let ghost k = choose|k: int|
                    {
                        &&& 0 <= k < pre.open@.len()
                        &&& e == pre.open@[k]
                        &&& !pre.visited_at(e.cell.0 as int, e.cell.1 as int)
                        &&& #[trigger] self.open@ =~= pre.open@.subrange(0, k)
                        &&& forall|j: int|
                            k < j < pre.open@.len() ==> pre.visited_at(
                                (#[trigger] pre.open@[j]).cell.0 as int,
                                pre.open@[j].cell.1 as int,
                            )
                    };
                let (cx, cy) = e.cell;
                let (fx, fy) = e.from;
                proof {
                    if pre.visited_count() == 0 {
                        assert(pre.open@ =~= seq![Self::entrance_entry()]);
                    }
                }
                let ci = self.cell_index(cx, cy);
                let mut c = self.cells[ci];
                c.visited = true;
                self.cells.set(ci, c);
                // Remove the one wall between this cell and the cell that
                // discovered it; the entrance points at itself, so no wall
                // moves for it.
                if cx < fx {
                    let mut c2 = self.cells[ci];
                    c2.wall_east = false;
                    self.cells.set(ci, c2);
                } else if cx > fx {
                    let fi = self.cell_index(fx, fy);
                    let mut c2 = self.cells[fi];
                    c2.wall_east = false;
                    self.cells.set(fi, c2);
                } else if cy < fy {
                    let mut c2 = self.cells[ci];
                    c2.wall_south = false;
                    self.cells.set(ci, c2);
                } else if cy > fy {
                    let fi = self.cell_index(fx, fy);
                    let mut c2 = self.cells[fi];
                    c2.wall_south = false;
                    self.cells.set(fi, c2);
                }
                proof {
                    assert(self.cells@ =~= Self::carve_cells(
                        pre.cells@,
                        w,
                        cx as int,
                        cy as int,
                        fx as int,
                        fy as int,
                    ));
                }
                self.bitmap = None;
                let ghost pk: int = if pre.visited_count() == 0 {
                    0
                } else {
                    choose|k2: int|
                        0 <= k2 < pre.tree@.len() && (#[trigger] pre.tree@[k2]).0 == (
                        fx as int,
                        fy as int,
                        )
                };
                proof {
                    if pre.visited_count() > 0 {
                        assert(pre.visited_at(fx as int, fy as int));
                        assert(exists|k2: int|
                            0 <= k2 < pre.tree@.len() && (#[trigger] pre.tree@[k2]).0 == (
                            fx as int,
                            fy as int,
                            ));
                    }
                }
                self.tree = Ghost(self.tree@.push(((cx as int, cy as int), pk)));
                let ghost cells1 = self.cells@;
                let ghost base = self.open@;
                let mut j: usize = 0;
                while j < 4
                    invariant
                        j <= 4,
                        self.width == pre.width,
                        self.height == pre.height,
                        self.cells@ == cells1,
                        self.tree@ == pre.tree@.push(((cx as int, cy as int), pk)),
                        self.bitmap is None,
                        self.wf_dims(),
                        (cx as int) < w,
                        (cy as int) < h,
                        cells1.len() == w * h,
                        w == self.spec_width(),
                        h == self.spec_height(),
                        self.open@ =~= base + Self::pushes(
                            cells1,
                            w,
                            h,
                            cx,
                            cy,
                            dirs@.take(j as int),
                        ),
                    decreases 4 - j,
                {
                    let d = dirs[j];
                    let nopt: Option<(usize, usize)> = match d {
                        Direction::North => if cy > 0 {
                            Some((cx, cy - 1))
                        } else {
                            None
                        },
                        Direction::East => if cx + 1 < self.width {
                            Some((cx + 1, cy))
                        } else {
                            None
                        },
                        Direction::South => if cy + 1 < self.height {
                            Some((cx, cy + 1))
                        } else {
                            None
                        },
                        Direction::West => if cx > 0 {
                            Some((cx - 1, cy))
                        } else {
                            None
                        },
                    };
                    if let Some((nx, ny)) = nopt {
                        let ni = self.cell_index(nx, ny);
                        if !self.cells[ni].visited {
                            self.open.push(OpenCell { cell: (nx, ny), from: (cx, cy) });
                        }
                    }
                    proof {
                        assert(dirs@.take(j as int + 1).drop_last() =~= dirs@.take(j as int));
                        assert(dirs@.take(j as int + 1).last() == dirs@[j as int]);
                        assert(self.open@ =~= base + Self::pushes(
                            cells1,
                            w,
                            h,
                            cx,
                            cy,
                            dirs@.take(j as int + 1),
                        ));
                    }
                    j = j + 1;
                }
                proof {
                    assert(dirs@.take(4) =~= dirs@);
                    assert(self.open@ =~= pre.open@.subrange(0, k) + Self::pushes(
                        cells1,
                        w,
                        h,
                        cx,
                        cy,
                        dirs@,
                    ));
                    assert(Self::step_rel(pre, *self, k, pk, dirs@));
                    Self::lemma_step_preserves_wf(pre, *self, k, pk, dirs@);
                }
                true
            },
        }
    }

    /// One randomized construction step: the four directions are shuffled
    /// afresh by the random source, then tried in that order.
    pub fn build_next(&mut self, rand: &mut Rand) -> (r: bool)
        requires
            old(self).wf(),
        ensures
            final(self).wf(),
            final(self).spec_width() == old(self).spec_width(),
            final(self).spec_height() == old(self).spec_height(),
            r <==> old(self).has_pending(),
            r ==> final(self).visited_count() == old(self).visited_count() + 1,
            !r ==> final(self).grid() == old(self).grid() && final(self).frontier().len() == 0,
            !r ==> forall|x: int, y: int|
                final(self).in_grid(x, y) ==> final(self).visited_at(x, y),
            !r ==> final(self).removed_walls() == final(self).spec_width() * final(self).spec_height() - 1,
            !r ==> forall|x: int, y: int|
                final(self).in_grid(x, y) ==> final(self).connected((0, 0), (x, y)),
    {
        let mut dirs = [Direction::North, Direction::East, Direction::South, Direction::West];
        let ghost before = dirs@;
        rand.shuffle_dirs(&mut dirs);
        proof {
            broadcast use vstd::seq_lib::group_to_multiset_ensures;

            assert forall|d: Direction| dirs@.contains(d) by {
                assert(before.contains(Direction::North) && before.contains(Direction::East)
                    && before.contains(Direction::South) && before.contains(Direction::West));
                assert(before.contains(d));
                assert(before.to_multiset().count(d) > 0);
                assert(dirs@.to_multiset().count(d) > 0);
            }
        }
        self.build_next_with(dirs)
    }

    /// Whether construction has visited cell `(x, y)`.
    pub fn visited(&self, x: usize, y: usize) -> (r: bool)
        requires
            self.wf_dims(),
            self.in_grid(x as int, y as int),
        ensures
            r == self.visited_at(x as int, y as int),
    {
        self.cells[self.cell_index(x, y)].visited
    }

    /// One pixel of the cached bitmap.
    pub fn bitmap_bit(&self, px: usize, py: usize) -> (r: bool)
        requires
            self.wf(),
            self.cached_bitmap() is Some,
            (px as int) < self.bmp_w(),
            (py as int) < self.bmp_h(),
        ensures
            r == self.pixel_on(px as int, py as int),
    {
        proof {
            Self::lemma_bitmap_bound(self.spec_width(), self.spec_height());
            Self::lemma_grid_index(self.bmp_w(), self.bmp_h(), px as int, py as int);
        }
        let bw = 2 * self.width + 1;
        match &self.bitmap {
            Some(b) => bits_get(b, py * bw + px),
            None => false,
        }
    }

    /// The pixels and visit flags are functions of the walls alone: two
    /// mazes with the same cell grid and dimensions render identically,
    /// whatever their frontiers or caches hold.
    pub proof fn lemma_walls_determine_pixels(a: Maze, b: Maze)
        requires
            a.grid() == b.grid(),
            a.spec_width() == b.spec_width(),
            a.spec_height() == b.spec_height(),
        ensures
            a.bmp_w() == b.bmp_w(),
            a.bmp_h() == b.bmp_h(),
            forall|px: int, py: int| #[trigger] a.pixel_on(px, py) == b.pixel_on(px, py),
            forall|x: int, y: int| #[trigger] a.visited_at(x, y) == b.visited_at(x, y),
    {
        assert forall|x: int, y: int| #[trigger] a.visited_at(x, y) == b.visited_at(x, y) by {}
        assert forall|px: int, py: int| #[trigger] a.pixel_on(px, py) == b.pixel_on(px, py) by {}
    }

    /// Both bitmap dimensions fit in a machine word, with one to spare.
    pub(crate) proof fn lemma_bitmap_bound(w: int, h: int)
        requires
            1 <= w,
            1 <= h,
            (2 * w + 1) * (2 * h + 1) <= usize::MAX,
        ensures
            2 * w + 2 <= usize::MAX,
            2 * h + 2 <= usize::MAX,
    {
        assert(2 * w + 2 <= (2 * w + 1) * (2 * h + 1) && 2 * h + 2 <= (2 * w + 1) * (2 * h + 1))
            by (nonlinear_arith)
            requires
                1 <= w,
                1 <= h,
        ;
    }

    /// Everything but the bitmap cache determines the rest of the
    /// invariant, so replacing the cache alone preserves it.
    #[verifier::rlimit(60)]
    proof fn lemma_wf_transfer(pre: Maze, post: Maze)
        requires
            pre.wf_dims(),
            pre.wf_frontier(),
            pre.wf_walls(),
            pre.wf_tree(),
            post.width == pre.width,
            post.height == pre.height,
            post.cells == pre.cells,
            post.open == pre.open,
            post.tree == pre.tree,
        ensures
            post.wf_dims(),
            post.wf_frontier(),
            post.wf_walls(),
            post.wf_tree(),
    {
        assert(post.visited_count() == pre.visited_count());
        assert forall|i: int| 0 <= i < post.open@.len() implies post.in_grid(
            #[trigger] post.open@[i].cell.0 as int,
            post.open@[i].cell.1 as int,
        ) && post.in_grid(post.open@[i].from.0 as int, post.open@[i].from.1 as int) by {
            assert(post.open@[i] == pre.open@[i]);
            assert(pre.in_grid(pre.open@[i].cell.0 as int, pre.open@[i].cell.1 as int));
        }
        if post.visited_count() == 0 {
            assert(pre.open@ =~= seq![Self::entrance_entry()]);
        }
        if post.visited_count() > 0 {
            assert forall|i: int| 0 <= i < post.open@.len() implies post.visited_at(
                #[trigger] post.open@[i].from.0 as int,
                post.open@[i].from.1 as int,
            ) && (exists|d: Direction|
                (post.open@[i].cell.0 as int, post.open@[i].cell.1 as int) == Self::step_of(
                    post.open@[i].from.0 as int,
                    post.open@[i].from.1 as int,
                    d,
                )) by {
                assert(post.open@[i] == pre.open@[i]);
                assert(pre.visited_at(pre.open@[i].from.0 as int, pre.open@[i].from.1 as int));
            }
        }
        assert forall|x: int, y: int, d: Direction|
            #![trigger post.visited_at(x, y), Maze::step_of(x, y, d)]
            {
                let st = Self::step_of(x, y, d);
                post.in_grid(x, y) && post.visited_at(x, y) && post.in_grid(st.0, st.1)
                    && !post.visited_at(st.0, st.1) ==> post.in_frontier(st.0, st.1)
            } by {
            let st = Self::step_of(x, y, d);
            if post.in_grid(x, y) && post.visited_at(x, y) && post.in_grid(st.0, st.1)
                && !post.visited_at(st.0, st.1) {
                assert(pre.visited_at(x, y));
                assert(!pre.visited_at(st.0, st.1));
                assert(pre.in_frontier(st.0, st.1));
                let i = choose|i: int|
                    0 <= i < pre.open@.len() && pre.open@[i].cell.0 == st.0
                        && pre.open@[i].cell.1 == st.1;
                assert(post.open@[i] == pre.open@[i]);
                assert(post.in_frontier(st.0, st.1));
            }
        }
        assert forall|x: int, y: int, d: Direction|
            #![trigger post.visited_at(x, y), Maze::step_of(x, y, d)]
            {
                let st = Self::step_of(x, y, d);
                post.in_grid(x, y) && !post.visited_at(x, y) && post.in_grid(st.0, st.1)
                    ==> post.has_wall(x, y, d)
            } by {
            let st = Self::step_of(x, y, d);
            if post.in_grid(x, y) && !post.visited_at(x, y) && post.in_grid(st.0, st.1) {
                assert(!pre.visited_at(x, y));
                assert(pre.has_wall(x, y, d));
            }
        }
        assert(post.wf_walls());
        assert forall|k2: int| 0 <= k2 < post.tree@.len() implies post.in_grid(
            (#[trigger] post.tree@[k2]).0.0,
            post.tree@[k2].0.1,
        ) && post.visited_at(post.tree@[k2].0.0, post.tree@[k2].0.1) by {
            assert(post.tree@[k2] == pre.tree@[k2]);
            assert(pre.visited_at(pre.tree@[k2].0.0, pre.tree@[k2].0.1));
        }
        assert forall|k1: int, k2: int|
            0 <= k1 < post.tree@.len() && 0 <= k2 < post.tree@.len() && k1 != k2 implies (
        #[trigger] post.tree@[k1]).0 != (#[trigger] post.tree@[k2]).0 by {
            assert(post.tree@[k1] == pre.tree@[k1]);
            assert(post.tree@[k2] == pre.tree@[k2]);
            assert(pre.tree@[k1].0 != pre.tree@[k2].0);
        }
        assert forall|x: int, y: int|
            post.in_grid(x, y) && #[trigger] post.visited_at(x, y) implies exists|k2: int|
            0 <= k2 < post.tree@.len() && (#[trigger] post.tree@[k2]).0 == (x, y) by {
            assert(pre.visited_at(x, y));
            let k2 = choose|k2: int| 0 <= k2 < pre.tree@.len() && (#[trigger] pre.tree@[k2]).0 == (
            x,
            y,
            );
            assert(post.tree@[k2].0 == (x, y));
        }
        if post.tree@.len() > 0 {
            assert(post.tree@[0] == pre.tree@[0]);
        }
        assert forall|k2: int| 1 <= k2 < post.tree@.len() implies {
            let p = (#[trigger] post.tree@[k2]).1;
            &&& 0 <= p < k2
            &&& post.open_between(post.tree@[k2].0, post.tree@[p].0)
        } by {
            assert(post.tree@[k2] == pre.tree@[k2]);
            assert(pre.open_between(pre.tree@[k2].0, pre.tree@[pre.tree@[k2].1].0));
        }
        assert(post.wf_tree());
    }

    /// The bitmap dimensions as (width, height): twice the cell grid plus
    /// one in each direction.
    pub fn bitmap_size(&self) -> (r: (usize, usize))
        requires
            self.wf_dims(),
        ensures
            r.0 == self.bmp_w(),
            r.1 == self.bmp_h(),
    {
        proof {
            Self::lemma_bitmap_bound(self.spec_width(), self.spec_height());
        }
        (2 * self.width + 1, 2 * self.height + 1)
    }

    /// Whether bitmap pixel `(px, py)` is a wall pixel, read straight off
    /// the cell grid.
    fn pixel(&self, px: usize, py: usize) -> (r: bool)
        requires
            self.wf_dims(),
            (px as int) < self.bmp_w(),
            (py as int) < self.bmp_h(),
        ensures
            r == self.pixel_on(px as int, py as int),
    {
        let w = self.width;
        let h = self.height;
        if px == 0 && py == 1 {
            false
        } else if px % 2 == 1 && py % 2 == 1 {
            false
        } else if px % 2 == 1 {
            let x = px / 2;
            let b = py / 2;
            if b == 0 {
                self.cells[self.cell_index(x, 0)].visited
            } else if b == h {
                let c = self.cells[self.cell_index(x, h - 1)];
                c.visited && c.wall_south
            } else {
                let cu = self.cells[self.cell_index(x, b - 1)];
                let cl = self.cells[self.cell_index(x, b)];
                cu.wall_south && (cu.visited || cl.visited)
            }
        } else if py % 2 == 1 {
            let a = px / 2;
            let y = py / 2;
            if a == 0 {
                self.cells[self.cell_index(0, y)].visited
            } else if a == w {
                let c = self.cells[self.cell_index(w - 1, y)];
                c.visited && c.wall_east
            } else {
                let cl = self.cells[self.cell_index(a - 1, y)];
                let cr = self.cells[self.cell_index(a, y)];
                cl.wall_east && (cl.visited || cr.visited)
            }
        } else {
            let a = px / 2;
            let b = py / 2;
            let mut r = false;
            if a > 0 && b > 0 {
                r = r || self.cells[self.cell_index(a - 1, b - 1)].visited;
            }
            if a < w && b > 0 {
                r = r || self.cells[self.cell_index(a, b - 1)].visited;
            }
            if a > 0 && b < h {
                r = r || self.cells[self.cell_index(a - 1, b)].visited;
            }
            if a < w && b < h {
                r = r || self.cells[self.cell_index(a, b)].visited;
            }
            r
        }
    }

    /// Rebuilds the cached bitmap if a wall change has invalidated it;
    /// afterwards the cache holds exactly the wall pixels of the current
    /// maze.
    pub fn render_bitmap(&mut self)
        requires
            old(self).wf(),
        ensures
            final(self).wf(),
            final(self).cached_bitmap() is Some,
            final(self).grid() == old(self).grid(),
            final(self).frontier() == old(self).frontier(),
            final(self).spec_width() == old(self).spec_width(),
            final(self).spec_height() == old(self).spec_height(),
    {
        if self.bitmap.is_some() {
            return ;
        }
        let ghost pre = *old(self);
        proof {
            Self::lemma_bitmap_bound(self.spec_width(), self.spec_height());
        }
        let bw = 2 * self.width + 1;
        let bh = 2 * self.height + 1;
        let total = bw * bh;
        let mut bits = bits_repeat(false, total);
        let mut py: usize = 0;
        while py < bh
            invariant
                *self == pre,
                pre.wf(),
                py <= bh,
                bw == pre.bmp_w(),
                bh == pre.bmp_h(),
                bits_of(bits).len() == bw * bh,
                forall|qx: int, qy: int|
                    0 <= qx < bw && 0 <= qy < py ==> bits_of(bits)[qy * bw + qx]
                        == #[trigger] pre.pixel_on(qx, qy),
            decreases bh - py,
        {
            let mut px: usize = 0;
            while px < bw
                invariant
                    *self == pre,
                    pre.wf(),
                    py < bh,
                    px <= bw,
                    bw == pre.bmp_w(),
                    bh == pre.bmp_h(),
                    bits_of(bits).len() == bw * bh,
                    forall|qx: int, qy: int|
                        0 <= qx < bw && 0 <= qy < py ==> bits_of(bits)[qy * bw + qx]
                            == #[trigger] pre.pixel_on(qx, qy),
                    forall|qx: int|
                        0 <= qx < px ==> bits_of(bits)[py * bw + qx] == #[trigger] pre.pixel_on(
                            qx,
                            py as int,
                        ),
                decreases bw - px,
            {
                let v = self.pixel(px, py);
                proof {
                    Self::lemma_grid_index(bw as int, bh as int, px as int, py as int);
                }
                let ghost bits0 = bits_of(bits);
                bits_set(&mut bits, py * bw + px, v);
                proof {
                    assert forall|qx: int, qy: int|
                        0 <= qx < bw && 0 <= qy < py implies bits_of(bits)[qy * bw + qx]
                        == #[trigger] pre.pixel_on(qx, qy) by {
                        Self::lemma_grid_index(bw as int, bh as int, qx, qy);
                        assert(qy * bw + qx != py * bw + px);
                        assert(bits_of(bits)[qy * bw + qx] == bits0[qy * bw + qx]);
                    }
                    assert forall|qx: int| 0 <= qx < px + 1 implies bits_of(bits)[py * bw + qx]
                        == #[trigger] pre.pixel_on(qx, py as int) by {
                        Self::lemma_grid_index(bw as int, bh as int, qx, py as int);
                        if qx < px {
                            assert(py * bw + qx != py * bw + px);
                            assert(bits_of(bits)[py * bw + qx] == bits0[py * bw + qx]);
                        }
                    }
                }
                px = px + 1;
            }
            py = py + 1;
        }
        self.bitmap = Some(bits);
        proof {
            Self::lemma_wf_transfer(pre, *self);
            assert(self.bitmap_ok()) by {
                let s2 = self.cached_bitmap().unwrap();
                assert forall|qx: int, qy: int|
                    0 <= qx < self.bmp_w() && 0 <= qy < self.bmp_h() implies s2[qy * self.bmp_w()
                    + qx] == #[trigger] self.pixel_on(qx, qy) by {
                    assert(s2[qy * (bw as int) + qx] == pre.pixel_on(qx, qy));
                    assert(self.pixel_on(qx, qy) == pre.pixel_on(qx, qy));
                }
            }
        }
    }
}


/// The two cells on either side of a shared wall always agree on it: the
/// east wall of `(x, y)` is the west wall of `(x + 1, y)`, and the south
/// wall of `(x, y)` is the north wall of `(x, y + 1)`.
pub proof fn lemma_walls_agree(m: Maze, x: int, y: int)
    requires
        m.wf_dims(),
    ensures
        m.in_grid(x, y) && m.in_grid(x + 1, y) ==> (m.spec_walls(x, y).east == m.spec_walls(
            x + 1,
            y,
        ).west),
        m.in_grid(x, y) && m.in_grid(x, y + 1) ==> (m.spec_walls(x, y).south == m.spec_walls(
            x,
            y + 1,
        ).north),
{
}

} // verus!
