//! A colored Game of Life board.
//!
//! Beyond the usual rules, cells carry a color: a live cell counts only
//! like-colored neighbors toward survival, and a dead cell is born only
//! from exactly three live neighbors of one single color.  Dead cells
//! age until they finally become empty, which renderers may use for
//! fading effects.  The board keeps two buffers and flips between them
//! each generation, and a digest history of recent generations to detect
//! convergence.

use vstd::prelude::*;

use std::collections::hash_map::DefaultHasher;
use std::hash::Hasher;

use vstd::std_specs::hash::DefaultHasherAdditionalSpecFns;

verus! {

/// Maximum age a dead cell reaches before it becomes empty.
pub const MAX_AGE: u32 = 1024;

/// How many recent generation digests are kept for convergence checks.
pub const HISTORY_LEN: usize = 16;

/// One cell: alive (some color, age zero), dead (some color, positive
/// age) or empty (no color).
#[derive(Clone, Copy, Debug)]
pub struct Cell {
    pub color: Option<u32>,
    pub age: u32,
}

impl Cell {
    /// Alive means colored with age zero.
    pub open spec fn spec_alive(self) -> bool {
        self.color is Some && self.age == 0
    }

    /// A new living cell of the given color.
    pub fn new(color: u32) -> (r: Cell)
        ensures
            r.color == Some(color),
            r.age == 0,
    {
        Cell { color: Some(color), age: 0 }
    }

    /// A new empty cell.
    pub fn empty() -> (r: Cell)
        ensures
            r.color is None,
            r.age == 0,
    {
        Cell { color: None, age: 0 }
    }

    pub fn is_alive(&self) -> (r: bool)
        ensures
            r == self.spec_alive(),
    {
        self.color.is_some() && self.age == 0
    }

    pub fn is_empty(&self) -> (r: bool)
        ensures
            r == (self.color is None),
    {
        self.color.is_none()
    }

    /// How many of the first `n` cells are alive.
    pub open spec fn count_alive(s: Seq<Cell>, n: int) -> int
        decreases n,
    {
        if n <= 0 {
            0
        } else {
            Self::count_alive(s, n - 1) + if s[n - 1].spec_alive() {
                1 as int
            } else {
                0
            }
        }
    }

    /// How many of the first `n` cells are alive with color `col`.
    pub open spec fn count_like(s: Seq<Cell>, col: Option<u32>, n: int) -> int
        decreases n,
    {
        if n <= 0 {
            0
        } else {
            Self::count_like(s, col, n - 1) + if s[n - 1].spec_alive() && s[n - 1].color == col {
                1 as int
            } else {
                0
            }
        }
    }

    /// All live cells in `s` share one color.
    pub open spec fn all_alive_same(s: Seq<Cell>) -> bool {
        forall|i: int, j: int|
            0 <= i < s.len() && 0 <= j < s.len() && (#[trigger] s[i]).spec_alive() && (
            #[trigger] s[j]).spec_alive() ==> s[i].color == s[j].color
    }

    pub open spec fn has_alive(s: Seq<Cell>) -> bool {
        exists|i: int| 0 <= i < s.len() && (#[trigger] s[i]).spec_alive()
    }

    /// The next state of a cell with neighbor list `s`: a live cell dies
    /// away from two or three like-colored live neighbors; a dead cell
    /// is born from exactly three live neighbors of one color; otherwise
    /// dead cells age until `MAX_AGE` empties them.
    pub open spec fn spec_next(c: Cell, s: Seq<Cell>) -> Cell {
        let like = Self::count_like(s, c.color, s.len() as int);
        let alive_n = Self::count_alive(s, s.len() as int);
        if c.spec_alive() {
            if like < 2 || like > 3 {
                Cell { color: c.color, age: 1 }
            } else {
                c
            }
        } else {
            if alive_n == 3 && Self::has_alive(s) && Self::all_alive_same(s) {
                Cell {
                    color: s[choose|i: int| 0 <= i < s.len() && (#[trigger] s[i]).spec_alive()].color,
                    age: 0,
                }
            } else if c.age < MAX_AGE {
                Cell { color: c.color, age: (c.age + 1) as u32 }
            } else {
                Cell { color: None, age: 0 }
            }
        }
    }

    /// A value already within the modulus is its own remainder.
    pub(crate) proof fn lemma_mod_small(a: int, m: int)
        requires
            0 <= a < m,
        ensures
            a % m == a,
    {
        assert(a % m == a) by (nonlinear_arith)
            requires
                0 <= a < m,
        ;
    }

    /// Without a live cell among the first `n`, the live count is zero.
    proof fn lemma_count_alive_zero(s: Seq<Cell>, n: int)
        requires
            n <= s.len(),
            forall|i: int| 0 <= i < s.len() ==> !(#[trigger] s[i]).spec_alive(),
        ensures
            Self::count_alive(s, n) <= 0,
        decreases n,
    {
        if n > 0 {
            Self::lemma_count_alive_zero(s, n - 1);
        }
    }

    /// The common color of the live neighbors: `Some(c)` exactly when at
    /// least one neighbor lives and all living ones share color `c`.
    fn common_color(neighbors: &[Cell]) -> (r: Option<u32>)
        ensures
            r is Some ==> Cell::has_alive(neighbors@) && (forall|i: int|
                0 <= i < neighbors@.len() && (#[trigger] neighbors@[i]).spec_alive()
                    ==> neighbors@[i].color == r),
            r is None ==> !Cell::has_alive(neighbors@) || !Cell::all_alive_same(neighbors@),
    {
        let ghost s = neighbors@;
        let mut color: Option<u32> = None;
        let mut conflict = false;
        let mut i: usize = 0;
        while i < neighbors.len()
            invariant
                i <= s.len(),
                s == neighbors@,
                color is None ==> (forall|j: int| 0 <= j < i ==> !(#[trigger] s[j]).spec_alive())
                    && !conflict,
                color is Some ==> (exists|j: int|
                    0 <= j < i && (#[trigger] s[j]).spec_alive() && s[j].color == color),
                color is Some && !conflict ==> (forall|j: int|
                    0 <= j < i && (#[trigger] s[j]).spec_alive() ==> s[j].color == color),
                conflict ==> exists|j1: int, j2: int|
                    0 <= j1 < i && 0 <= j2 < i && (#[trigger] s[j1]).spec_alive() && (
                    #[trigger] s[j2]).spec_alive() && s[j1].color != s[j2].color,
            decreases s.len() - i,
        {
            let c = neighbors[i];
            if c.is_alive() {
                match color {
                    None => {
                        color = c.color;
                        proof {
                            assert(s[i as int].spec_alive());
                        }
                    },
                    Some(c0) => {
                        let same = match c.color {
                            Some(c1) => c1 == c0,
                            None => false,
                        };
                        if !same {
                            conflict = true;
                        }
                    },
                }
            }
            i = i + 1;
        }
        if conflict {
            None
        } else {
            color
        }
    }

    /// Computes the next state of the cell from its eight neighbors.
    pub fn next(&self, neighbors: &[Cell]) -> (r: Cell)
        ensures
            r == Cell::spec_next(*self, neighbors@),
    {
        let ghost s = neighbors@;
        let mut living: usize = 0;
        let mut like: usize = 0;
        let mut i: usize = 0;
        while i < neighbors.len()
            invariant
                i <= s.len(),
                s == neighbors@,
                living == Cell::count_alive(s, i as int),
                like == Cell::count_like(s, self.color, i as int),
                living <= i,
                like <= i,
            decreases s.len() - i,
        {
            let c = neighbors[i];
            if c.is_alive() {
                living = living + 1;
                let same = match (c.color, self.color) {
                    (Some(a), Some(b)) => a == b,
                    (None, None) => true,
                    _ => false,
                };
                if same {
                    like = like + 1;
                }
            }
            i = i + 1;
        }
        if self.is_alive() {
            if like < 2 || like > 3 {
                Cell { color: self.color, age: 1 }
            } else {
                *self
            }
        } else {
            let birth = self.common_color_birth(neighbors, living);
            match birth {
                Some(color) => Cell { color: Some(color), age: 0 },
                None => {
                    if self.age < MAX_AGE {
                        Cell { color: self.color, age: self.age + 1 }
                    } else {
                        Cell::empty()
                    }
                },
            }
        }
    }

    /// The birth color, if this dead cell is born: exactly three live
    /// neighbors, all of one color.
    fn common_color_birth(&self, neighbors: &[Cell], living: usize) -> (r: Option<u32>)
        requires
            living == Cell::count_alive(neighbors@, neighbors@.len() as int),
        ensures
            ({
                let s = neighbors@;
                let alive_n = Cell::count_alive(s, s.len() as int);
                if alive_n == 3 && Cell::has_alive(s) && Cell::all_alive_same(s) {
                    r matches Some(c) && Some(c) == s[choose|i: int|
                        0 <= i < s.len() && (#[trigger] s[i]).spec_alive()].color
                } else {
                    r is None
                }
            }),
    {
        let ghost s = neighbors@;
        if living != 3 {
            proof {
                if Cell::count_alive(s, s.len() as int) == 3 {
                    assert(false);
                }
            }
            return None;
        }
        let cc = Self::common_color(neighbors);
        proof {
            match cc {
                Some(c) => {
                    let w = choose|i: int| 0 <= i < s.len() && (#[trigger] s[i]).spec_alive();
                    assert(s[w].spec_alive());
                    assert(s[w].color == Some(c));
                },
                None => {
                    if Cell::has_alive(s) && Cell::all_alive_same(s) {
                        assert(false);
                    } else {
                        if !Cell::has_alive(s) {
                            Self::lemma_count_alive_zero(s, s.len() as int);
                        }
                    }
                },
            }
        }
        cc
    }
}

impl Default for Cell {
    /// An empty cell.
    fn default() -> (r: Self)
        ensures
            r.color is None,
            r.age == 0,
    {
        Cell::empty()
    }
}

/// The board: two cell buffers flipped each generation, plus a digest
/// history for convergence detection.
#[derive(Clone)]
pub struct Board {
    width: usize,
    height: usize,
    cells_a: Vec<Cell>,
    cells_b: Vec<Cell>,
    generation: usize,
    history: Vec<u64>,
}

impl Board {
    pub closed spec fn spec_width(self) -> int {
        self.width as int
    }

    pub closed spec fn spec_height(self) -> int {
        self.height as int
    }

    pub closed spec fn spec_generation(self) -> int {
        self.generation as int
    }

    /// The buffer holding the current generation.
    pub closed spec fn current(self) -> Seq<Cell> {
        if self.generation % 2 == 0 {
            self.cells_a@
        } else {
            self.cells_b@
        }
    }

    pub closed spec fn spec_history(self) -> Seq<u64> {
        self.history@
    }

    pub closed spec fn wf(self) -> bool {
        &&& self.cells_a@.len() == self.spec_width() * self.spec_height()
        &&& self.cells_b@.len() == self.spec_width() * self.spec_height()
        &&& self.spec_width() * self.spec_height() <= usize::MAX
        &&& self.history@.len() == HISTORY_LEN
    }

    /// A cell of the current buffer, with coordinates wrapped onto the
    /// grid.
    pub closed spec fn cell_at(self, x: int, y: int) -> Cell {
        self.current()[(y % self.spec_height()) * self.spec_width() + (x % self.spec_width())]
    }

    /// A new empty board.
    pub fn new(width: usize, height: usize) -> (r: Board)
        requires
            width * height <= usize::MAX,
        ensures
            r.wf(),
            r.spec_width() == width,
            r.spec_height() == height,
            r.spec_generation() == 0,
            forall|i: int| 0 <= i < r.current().len() ==> (#[trigger] r.current()[i]).color is None,
            forall|i: int| 0 <= i < HISTORY_LEN ==> r.spec_history()[i] == 0,
    {
        let count = width * height;
        let mut cells_a: Vec<Cell> = Vec::new();
        let mut cells_b: Vec<Cell> = Vec::new();
        let mut i: usize = 0;
        while i < count
            invariant
                i <= count,
                cells_a@.len() == i,
                cells_b@.len() == i,
                forall|j: int| 0 <= j < i ==> (#[trigger] cells_a@[j]).color is None,
            decreases count - i,
        {
            cells_a.push(Cell::empty());
            cells_b.push(Cell::empty());
            i = i + 1;
        }
        let mut history: Vec<u64> = Vec::new();
        let mut k: usize = 0;
        while k < HISTORY_LEN
            invariant
                k <= HISTORY_LEN,
                history@.len() == k,
                forall|j: int| 0 <= j < k ==> #[trigger] history@[j] == 0,
            decreases HISTORY_LEN - k,
        {
            history.push(0);
            k = k + 1;
        }
        Board { width, height, cells_a, cells_b, generation: 0, history }
    }

    /// The same board with the current buffer replaced, for loading a
    /// prepared pattern; the generation restarts at zero.
    pub fn with_cells(self, cells: Vec<Cell>) -> (r: Board)
        requires
            self.wf(),
            cells@.len() == self.spec_width() * self.spec_height(),
        ensures
            r.wf(),
            r.spec_width() == self.spec_width(),
            r.spec_height() == self.spec_height(),
            r.spec_generation() == 0,
            r.current() == cells@,
    {
        Board {
            width: self.width,
            height: self.height,
            cells_a: cells,
            cells_b: self.cells_b,
            generation: 0,
            history: self.history,
        }
    }

    /// The dimensions as (width, height).
    pub fn size(&self) -> (r: (usize, usize))
        ensures
            r.0 == self.spec_width(),
            r.1 == self.spec_height(),
    {
        (self.width, self.height)
    }

    /// The current generation number.
    pub fn generation(&self) -> (r: usize)
        ensures
            r == self.spec_generation(),
    {
        self.generation
    }

    /// The cell at `(x, y)`, wrapped onto the grid.
    pub fn cell(&self, x: usize, y: usize) -> (r: &Cell)
        requires
            self.wf(),
            self.spec_width() >= 1,
            self.spec_height() >= 1,
        ensures
            *r == self.cell_at(x as int, y as int),
    {
        let x = x % self.width;
        let y = y % self.height;
        proof {
            crate::maze::Maze::lemma_grid_index(self.spec_width(), self.spec_height(), x as int, y as int);
        }
        let i = y * self.width + x;
        if self.generation % 2 == 0 {
            &self.cells_a[i]
        } else {
            &self.cells_b[i]
        }
    }

    /// The eight neighbors of `(x, y)` in row order, wrapping at the
    /// edges.
    pub open spec fn spec_neighbors(self, x: int, y: int) -> Seq<Cell> {
        let w = self.spec_width();
        let h = self.spec_height();
        seq![
            self.cell_at(x - 1 + w, y - 1 + h),
            self.cell_at(x + w, y - 1 + h),
            self.cell_at(x + 1 + w, y - 1 + h),
            self.cell_at(x - 1 + w, y + h),
            self.cell_at(x + 1 + w, y + h),
            self.cell_at(x - 1 + w, y + 1 + h),
            self.cell_at(x + w, y + 1 + h),
            self.cell_at(x + 1 + w, y + 1 + h),
        ]
    }

    /// The bytes hashed into a generation digest: one byte per cell of
    /// the buffer, one for alive and zero otherwise, in row order.
    pub open spec fn spec_digest_writes(cells: Seq<Cell>) -> Seq<Seq<u8>> {
        Seq::new(cells.len(), |i: int| seq![if cells[i].spec_alive() { 1 as u8 } else { 0 as u8 }])
    }

    /// Advances the board one generation: every cell steps by the cell
    /// rule over its eight wrapped neighbors into the other buffer, the
    /// digest of the old buffer's live pattern is recorded in the
    /// history slot of the old generation, and the generation counter
    /// moves up.
    pub fn next(&mut self)
        requires
            old(self).wf(),
            old(self).spec_width() >= 1,
            old(self).spec_height() >= 1,
            2 * old(self).spec_width() + 2 <= usize::MAX,
            2 * old(self).spec_height() + 2 <= usize::MAX,
            old(self).spec_generation() < usize::MAX,
        ensures
            final(self).wf(),
            final(self).spec_width() == old(self).spec_width(),
            final(self).spec_height() == old(self).spec_height(),
            final(self).spec_generation() == old(self).spec_generation() + 1,
            forall|x: int, y: int|
                0 <= x < old(self).spec_width() && 0 <= y < old(self).spec_height()
                    ==> #[trigger] final(self).cell_at(x, y) == Cell::spec_next(
                    old(self).cell_at(x, y),
                    old(self).spec_neighbors(x, y),
                ),
            final(self).spec_history() =~= old(self).spec_history().update(
                old(self).spec_generation() % (HISTORY_LEN as int),
                DefaultHasher::spec_finish(
                    Self::spec_digest_writes(old(self).current()),
                ),
            ),
    {
        let ghost pre = *old(self);
        let w = self.width;
        let h = self.height;
        let ghost wi = w as int;
        let ghost hi = h as int;
        let mut hasher = hasher_new();
        let mut fresh: Vec<Cell> = Vec::new();
        let mut y: usize = 0;
        while y < h
            invariant
                *self == pre,
                pre.wf(),
                wi == pre.spec_width(),
                hi == pre.spec_height(),
                w == wi,
                h == hi,
                wi >= 1,
                hi >= 1,
                2 * wi + 2 <= usize::MAX,
                2 * hi + 2 <= usize::MAX,
                y <= hi,
                fresh@.len() == y * wi,
                hasher@ =~= Self::spec_digest_writes(pre.current()).take(y * wi),
                forall|x2: int, y2: int|
                    0 <= x2 < wi && 0 <= y2 < y ==> #[trigger] fresh@[y2 * wi + x2]
                        == Cell::spec_next(pre.cell_at(x2, y2), pre.spec_neighbors(x2, y2)),
            decreases hi - y,
        {
            let mut x: usize = 0;
            while x < w
                invariant
                    *self == pre,
                    pre.wf(),
                    wi == pre.spec_width(),
                    hi == pre.spec_height(),
                    w == wi,
                    h == hi,
                    wi >= 1,
                    hi >= 1,
                    2 * wi + 2 <= usize::MAX,
                    2 * hi + 2 <= usize::MAX,
                    y < hi,
                    x <= wi,
                    fresh@.len() == y * wi + x,
                    hasher@ =~= Self::spec_digest_writes(pre.current()).take(y * wi + x),
                    forall|x2: int, y2: int|
                        0 <= x2 < wi && 0 <= y2 < y ==> #[trigger] fresh@[y2 * wi + x2]
                            == Cell::spec_next(pre.cell_at(x2, y2), pre.spec_neighbors(x2, y2)),
                    forall|x2: int|
                        0 <= x2 < x ==> #[trigger] fresh@[y * wi + x2] == Cell::spec_next(
                            pre.cell_at(x2, y as int),
                            pre.spec_neighbors(x2, y as int),
                        ),
                decreases wi - x,
            {
                proof {
                    crate::maze::Maze::lemma_grid_index(wi, hi, x as int, y as int);
                }
                let me = *self.cell(x, y);
                let byte: u8 = if me.is_alive() {
                    1
                } else {
                    0
                };
                hasher_write_byte(&mut hasher, byte);
                proof {
                    Cell::lemma_mod_small(x as int, wi);
                    Cell::lemma_mod_small(y as int, hi);
                    assert(pre.cell_at(x as int, y as int) == pre.current()[y * wi + x]);
                    assert(hasher@ =~= Self::spec_digest_writes(pre.current()).take(
                        y * wi + x + 1,
                    ));
                }
                let mut neighbors: Vec<Cell> = Vec::new();
                neighbors.push(*self.cell(x + w - 1, y + h - 1));
                neighbors.push(*self.cell(x + w, y + h - 1));
                neighbors.push(*self.cell(x + w + 1, y + h - 1));
                neighbors.push(*self.cell(x + w - 1, y + h));
                neighbors.push(*self.cell(x + w + 1, y + h));
                neighbors.push(*self.cell(x + w - 1, y + h + 1));
                neighbors.push(*self.cell(x + w, y + h + 1));
                neighbors.push(*self.cell(x + w + 1, y + h + 1));
                proof {
                    assert(neighbors@ =~= pre.spec_neighbors(x as int, y as int));
                }
                let stepped = me.next(neighbors.as_slice());
                fresh.push(stepped);
                proof {
                    assert forall|x2: int, y2: int|
                        0 <= x2 < wi && 0 <= y2 < y implies #[trigger] fresh@[y2 * wi + x2]
                        == Cell::spec_next(pre.cell_at(x2, y2), pre.spec_neighbors(x2, y2)) by {
                        assert(y2 * wi + x2 < (y as int) * wi) by (nonlinear_arith)
                            requires
                                0 <= x2 < wi,
                                0 <= y2,
                                y2 < y as int,
                        ;
                    }
                    assert forall|x2: int|
                        0 <= x2 < x + 1 implies #[trigger] fresh@[y * wi + x2] == Cell::spec_next(
                        pre.cell_at(x2, y as int),
                        pre.spec_neighbors(x2, y as int),
                    ) by {
                        crate::maze::Maze::lemma_grid_index(wi, hi, x2, y as int);
                    }
                }
                x = x + 1;
            }
            proof {
                assert((y as int + 1) * wi == y as int * wi + wi) by (nonlinear_arith);
            }
            y = y + 1;
        }
        let digest = hasher_finish(&hasher);
        proof {
            assert(hi * wi == wi * hi) by (nonlinear_arith);
            assert(hasher@ =~= Self::spec_digest_writes(pre.current()));
        }
        let slot = self.generation % HISTORY_LEN;
        self.history.set(slot, digest);
        if self.generation % 2 == 0 {
            self.cells_b = fresh;
        } else {
            self.cells_a = fresh;
        }
        self.generation = self.generation + 1;
        proof {
            assert forall|x: int, y2: int|
                0 <= x < wi && 0 <= y2 < hi implies #[trigger] self.cell_at(x, y2)
                == Cell::spec_next(pre.cell_at(x, y2), pre.spec_neighbors(x, y2)) by {
                crate::maze::Maze::lemma_grid_index(wi, hi, x, y2);
                Cell::lemma_mod_small(x, wi);
                Cell::lemma_mod_small(y2, hi);
            }
        }
    }

    /// How many history entries equal `v`.
    pub open spec fn count_eq(h: Seq<u64>, v: u64, n: int) -> int
        decreases n,
    {
        if n <= 0 {
            0
        } else {
            Self::count_eq(h, v, n - 1) + if h[n - 1] == v {
                1 as int
            } else {
                0
            }
        }
    }

    /// Whether the board has settled: after at least `HISTORY_LEN`
    /// generations, the whole history holds one digest, or alternates
    /// between two digests evenly.
    pub fn converged(&self) -> (r: bool)
        requires
            self.wf(),
        ensures
            r == (self.spec_generation() >= HISTORY_LEN && {
                let hs = self.spec_history();
                let n = HISTORY_LEN as int;
                Self::count_eq(hs, hs[0], n) == n || (Self::count_eq(hs, hs[0], n) == n / 2
                    && Self::count_eq(hs, hs[1], n) == n / 2)
            }),
    {
        if self.generation < HISTORY_LEN {
            return false;
        }
        let h0 = self.history[0];
        let h1 = self.history[1];
        let mut c0: usize = 0;
        let mut c1: usize = 0;
        let mut i: usize = 0;
        while i < HISTORY_LEN
            invariant
                i <= HISTORY_LEN,
                self.history@.len() == HISTORY_LEN,
                h0 == self.spec_history()[0],
                h1 == self.spec_history()[1],
                c0 == Self::count_eq(self.spec_history(), h0, i as int),
                c1 == Self::count_eq(self.spec_history(), h1, i as int),
                c0 <= i,
                c1 <= i,
            decreases HISTORY_LEN - i,
        {
            if self.history[i] == h0 {
                c0 = c0 + 1;
            }
            if self.history[i] == h1 {
                c1 = c1 + 1;
            }
            i = i + 1;
        }
        c0 == HISTORY_LEN || (c0 == HISTORY_LEN / 2 && c1 == HISTORY_LEN / 2)
    }
}

/// A fresh hasher, with nothing written yet.
fn hasher_new() -> (r: DefaultHasher)
    ensures
        r@ == Seq::<Seq<u8>>::empty(),
{
    DefaultHasher::new()
}

/// Appends one byte to the hasher's record.
fn hasher_write_byte(h: &mut DefaultHasher, byte: u8)
    ensures
        final(h)@ == old(h)@.push(seq![byte]),
{
    let buf = [byte];
    h.write(buf.as_slice());
    proof {
        assert(buf@ =~= seq![byte]);
    }
}

/// The digest of everything written so far.
fn hasher_finish(h: &DefaultHasher) -> (r: u64)
    ensures
        r == DefaultHasher::spec_finish(h@),
{
    h.finish()
}

} // verus!
