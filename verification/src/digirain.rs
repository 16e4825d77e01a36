//! The digital-rain board: falling streams of glyphs that age and fade.
//!
//! Each cell remembers its glyph, its age in frames and the length of
//! the stream it belongs to.  Stepping the board ages live cells, grows
//! streams downward, and spawns new stream heads where the caller's
//! random draws say so; the spawn draws arrive as plain booleans because
//! their probability is a fraction the caller owns.

use vstd::prelude::*;

use crate::rng::Rand;
use crate::term::{Glyph, TextStyle};

verus! {

/// One character cell of the rain.
#[derive(Clone, Copy, Debug)]
pub struct Cell {
    pub age: u32,
    pub content: char,
    pub trail_length: u32,
}

impl Cell {
    /// A blank cell: maximally aged, holding no glyph.
    pub fn new() -> (r: Cell)
        ensures
            r.age == u32::MAX,
            r.content == '\u{0}',
            r.trail_length == 0,
    {
        Cell { age: u32::MAX, content: '\u{0}', trail_length: 0 }
    }

    /// A fresh stream head showing `content`.
    pub fn new_head(content: char, trail_length: u32) -> (r: Cell)
        ensures
            r.age == 0,
            r.content == content,
            r.trail_length == trail_length,
    {
        Cell { age: 0, content, trail_length }
    }

    /// A cell is alive while younger than the configured lifespan.
    pub open spec fn spec_alive(self, lifespan: u32) -> bool {
        self.age < lifespan
    }

    pub fn is_alive(&self, lifespan: u32) -> (r: bool)
        ensures
            r == self.spec_alive(lifespan),
    {
        self.age < lifespan
    }
}

impl Default for Cell {
    /// A blank cell.
    fn default() -> (r: Self)
        ensures
            r.age == u32::MAX,
            r.content == '\u{0}',
            r.trail_length == 0,
    {
        Cell::new()
    }
}

pub struct Board {
    width: usize,
    height: usize,
    front: Vec<Cell>,
    back: Vec<Cell>,
    alphabet: Vec<char>,
}

impl Board {
    pub closed spec fn spec_width(self) -> int {
        self.width as int
    }

    pub closed spec fn spec_height(self) -> int {
        self.height as int
    }

    pub closed spec fn spec_cells(self) -> Seq<Cell> {
        self.front@
    }

    pub closed spec fn spec_alphabet(self) -> Seq<char> {
        self.alphabet@
    }

    pub closed spec fn wf(self) -> bool {
        &&& self.front@.len() == self.spec_width() * self.spec_height()
        &&& self.back@.len() == self.spec_width() * self.spec_height()
        &&& self.spec_width() * self.spec_height() <= usize::MAX
        &&& self.alphabet@.len() >= 1
    }

    /// A blank board over the given alphabet, which must hold at least
    /// one glyph after the caller has dropped whitespace from it.
    pub fn new(width: usize, height: usize, alphabet: Vec<char>) -> (r: Board)
        requires
            width * height <= usize::MAX,
            alphabet@.len() >= 1,
        ensures
            r.wf(),
            r.spec_width() == width,
            r.spec_height() == height,
            r.spec_alphabet() == alphabet@,
            forall|i: int| 0 <= i < r.spec_cells().len() ==> (#[trigger] r.spec_cells()[i]).age == u32::MAX,
    {
        let count = width * height;
        let mut front: Vec<Cell> = Vec::new();
        let mut back: Vec<Cell> = Vec::new();
        let mut i: usize = 0;
        while i < count
            invariant
                i <= count,
                front@.len() == i,
                back@.len() == i,
                forall|j: int| 0 <= j < i ==> (#[trigger] front@[j]).age == u32::MAX,
            decreases count - i,
        {
            front.push(Cell::new());
            back.push(Cell::new());
            i = i + 1;
        }
        Board { width, height, front, back, alphabet }
    }

    fn cell_index(&self, x: usize, y: usize) -> (r: usize)
        requires
            self.wf(),
            self.spec_width() >= 1,
            self.spec_height() >= 1,
        ensures
            r < self.spec_cells().len(),
            r == (y as int % self.spec_height()) * self.spec_width() + (x as int
                % self.spec_width()),
    {
        let x2 = x % self.width;
        let y2 = y % self.height;
        proof {
            crate::maze::Maze::lemma_grid_index(
                self.spec_width(),
                self.spec_height(),
                x2 as int,
                y2 as int,
            );
        }
        y2 * self.width + x2
    }

    /// The cell at `(x, y)`, wrapped onto the grid.
    pub fn cell(&self, x: usize, y: usize) -> (r: Cell)
        requires
            self.wf(),
            self.spec_width() >= 1,
            self.spec_height() >= 1,
        ensures
            r == self.spec_cells()[(y as int % self.spec_height()) * self.spec_width() + (
            x as int % self.spec_width())],
    {
        let i = self.cell_index(x, y);
        self.front[i]
    }

    /// A copy at new dimensions: the overlapping region keeps its cells,
    /// everything else is blank.
    pub fn resize(self, new_width: usize, new_height: usize) -> (r: Board)
        requires
            self.wf(),
            self.spec_width() >= 1,
            self.spec_height() >= 1,
            new_width * new_height <= usize::MAX,
            new_width >= 1,
            new_height >= 1,
        ensures
            r.wf(),
            r.spec_width() == new_width,
            r.spec_height() == new_height,
            r.spec_alphabet() == self.spec_alphabet(),
            forall|x: int, y: int|
                0 <= x < new_width && 0 <= y < new_height ==> #[trigger] r.spec_cells()[y
                    * new_width + x] == (if x < self.spec_width() && y < self.spec_height() {
                    self.spec_cells()[y * self.spec_width() + x]
                } else {
                    Cell { age: u32::MAX, content: '\u{0}', trail_length: 0 }
                }),
    {
        let mut fresh: Vec<Cell> = Vec::new();
        let mut back: Vec<Cell> = Vec::new();
        let mut y: usize = 0;
        while y < new_height
            invariant
                self.wf(),
                self.spec_width() >= 1,
                self.spec_height() >= 1,
                new_width * new_height <= usize::MAX,
                new_width >= 1,
                new_height >= 1,
                y <= new_height,
                fresh@.len() == y * new_width,
                back@.len() == y * new_width,
                forall|x2: int, y2: int|
                    0 <= x2 < new_width && 0 <= y2 < y ==> #[trigger] fresh@[y2 * new_width + x2]
                        == (if x2 < self.spec_width() && y2 < self.spec_height() {
                        self.spec_cells()[y2 * self.spec_width() + x2]
                    } else {
                        Cell { age: u32::MAX, content: '\u{0}', trail_length: 0 }
                    }),
            decreases new_height - y,
        {
            let mut x: usize = 0;
            while x < new_width
                invariant
                    self.wf(),
                    self.spec_width() >= 1,
                    self.spec_height() >= 1,
                    new_width * new_height <= usize::MAX,
                    new_width >= 1,
                    new_height >= 1,
                    y < new_height,
                    x <= new_width,
                    fresh@.len() == y * new_width + x,
                    back@.len() == y * new_width + x,
                    forall|x2: int, y2: int|
                        0 <= x2 < new_width && 0 <= y2 < y ==> #[trigger] fresh@[y2 * new_width
                            + x2] == (if x2 < self.spec_width() && y2 < self.spec_height() {
                            self.spec_cells()[y2 * self.spec_width() + x2]
                        } else {
                            Cell { age: u32::MAX, content: '\u{0}', trail_length: 0 }
                        }),
                    forall|x2: int|
                        0 <= x2 < x ==> #[trigger] fresh@[y * new_width + x2] == (if x2
                            < self.spec_width() && (y as int) < self.spec_height() {
                            self.spec_cells()[y * self.spec_width() + x2]
                        } else {
                            Cell { age: u32::MAX, content: '\u{0}', trail_length: 0 }
                        }),
                decreases new_width - x,
            {
                proof {
                    crate::maze::Maze::lemma_grid_index(
                        new_width as int,
                        new_height as int,
                        x as int,
                        y as int,
                    );
                }
                let v = if x < self.width && y < self.height {
                    proof {
                        crate::maze::Maze::lemma_grid_index(
                            self.spec_width(),
                            self.spec_height(),
                            x as int,
                            y as int,
                        );
                        Self::lemma_mod_small(x as int, self.spec_width());
                        Self::lemma_mod_small(y as int, self.spec_height());
                    }
                    self.cell(x, y)
                } else {
                    Cell::new()
                };
                fresh.push(v);
                back.push(Cell::new());
                proof {
                    assert forall|x2: int, y2: int|
                        0 <= x2 < new_width && 0 <= y2 < y implies #[trigger] fresh@[y2 * new_width
                        + x2] == (if x2 < self.spec_width() && y2 < self.spec_height() {
                        self.spec_cells()[y2 * self.spec_width() + x2]
                    } else {
                        Cell { age: u32::MAX, content: '\u{0}', trail_length: 0 }
                    }) by {
                        assert(y2 * (new_width as int) + x2 < (y as int) * new_width)
                            by (nonlinear_arith)
                            requires
                                0 <= x2 < new_width as int,
                                0 <= y2,
                                y2 < y as int,
                        ;
                    }
                }
                x = x + 1;
            }
            proof {
                assert((y as int + 1) * (new_width as int) == (y as int) * (new_width as int)
                    + new_width as int) by (nonlinear_arith);
            }
            y = y + 1;
        }
        proof {
            assert((new_height as int) * (new_width as int) == (new_width as int) * (
            new_height as int)) by (nonlinear_arith);
            assert((new_width as int) * (new_height as int) <= usize::MAX);
        }
        Board {
            width: new_width,
            height: new_height,
            front: fresh,
            back,
            alphabet: self.alphabet,
        }
    }

    proof fn lemma_mod_small(a: int, m: int)
        requires
            0 <= a < m,
        ensures
            a % m == a,
    {
        assert(a % m == a) by (nonlinear_arith)
            requires
                0 <= a < m,
        ;
    }

    /// One frame step.  Live cells keep falling: a live cell re-rolls
    /// its glyph and ages by one; a stream head whose trail may continue
    /// seeds a new head one row below; an empty cell spawns a new head
    /// exactly where the caller's spawn draw says so.  Glyph re-rolls
    /// and trail-continuation draws come from the random source, so of
    /// the new board only its shape and alphabet are promised.
    pub fn next(
        self,
        lifespan: u32,
        min_trail: u32,
        max_trail: u32,
        spawns: &Vec<bool>,
        rand: &mut Rand,
    ) -> (r: Board)
        requires
            self.wf(),
            self.spec_width() >= 1,
            self.spec_height() >= 1,
            min_trail < max_trail,
            spawns@.len() == self.spec_width() * self.spec_height(),
        ensures
            r.wf(),
            r.spec_width() == self.spec_width(),
            r.spec_height() == self.spec_height(),
            r.spec_alphabet() == self.spec_alphabet(),
    {
        let w = self.width;
        let h = self.height;
        let count = self.front.len();
        let mut fresh: Vec<Cell> = Vec::new();
        let mut i: usize = 0;
        while i < count
            invariant
                i <= count,
                count == self.spec_width() * self.spec_height(),
                fresh@.len() == i,
            decreases count - i,
        {
            fresh.push(Cell::new());
            i = i + 1;
        }
        let mut y: usize = 0;
        while y < h
            invariant
                self.wf(),
                w == self.spec_width(),
                h == self.spec_height(),
                self.spec_width() >= 1,
                self.spec_height() >= 1,
                min_trail < max_trail,
                y <= h,
                fresh@.len() == self.spec_width() * self.spec_height(),
                spawns@.len() == self.spec_width() * self.spec_height(),
            decreases h - y,
        {
            let mut x: usize = 0;
            while x < w
                invariant
                    self.wf(),
                    w == self.spec_width(),
                    h == self.spec_height(),
                    self.spec_width() >= 1,
                    self.spec_height() >= 1,
                    min_trail < max_trail,
                    y < h,
                    x <= w,
                    fresh@.len() == self.spec_width() * self.spec_height(),
                    spawns@.len() == self.spec_width() * self.spec_height(),
                decreases w - x,
            {
                let index = self.cell_index(x, y);
                let cur = self.front[index];
                if cur.is_alive(lifespan) {
                    let mut cell = cur;
                    cell.content = self.alphabet[rand.below(self.alphabet.len())];
                    if cell.age == 0 {
                        let continue_trail = if cell.trail_length < min_trail {
                            true
                        } else if cell.trail_length >= max_trail {
                            false
                        } else {
                            // One chance in the trail-length window.
                            rand.below((max_trail - min_trail) as usize) == 0
                        };
                        if continue_trail && cell.trail_length < u32::MAX {
                            let lower = self.cell_index(x, y + 1);
                            let head = Cell::new_head(
                                self.alphabet[rand.below(self.alphabet.len())],
                                cell.trail_length + 1,
                            );
                            fresh.set(lower, head);
                        }
                    }
                    if cell.age < u32::MAX {
                        cell.age = cell.age + 1;
                    }
                    let refreshed = fresh[index];
                    if !refreshed.is_alive(lifespan) {
                        fresh.set(index, cell);
                    }
                } else {
                    let refreshed = fresh[index];
                    if !refreshed.is_alive(lifespan) && spawns[index] {
                        let head = Cell::new_head(
                            self.alphabet[rand.below(self.alphabet.len())],
                            1,
                        );
                        fresh.set(index, head);
                    }
                }
                x = x + 1;
            }
            y = y + 1;
        }
        Board { width: w, height: h, front: fresh, back: self.front, alphabet: self.alphabet }
    }

    /// The frame the board shows: live heads bold, live trail cells dim,
    /// dead cells blank.
    pub fn render(&self, lifespan: u32, color: usize) -> (r: Vec<Glyph>)
        requires
            self.wf(),
            self.spec_width() >= 1,
            self.spec_height() >= 1,
            color < 8,
        ensures
            r@.len() == self.spec_width() * self.spec_height(),
            forall|i: int|
                0 <= i < r@.len() ==> #[trigger] r@[i] == {
                    let c = self.spec_cells()[i];
                    if c.spec_alive(lifespan) {
                        Glyph {
                            ch: c.content,
                            style: if c.age == 0 {
                                TextStyle::Bold(color as u8)
                            } else {
                                TextStyle::Dim(color as u8)
                            },
                        }
                    } else {
                        Glyph { ch: ' ', style: TextStyle::Plain }
                    }
                },
    {
        let count = self.front.len();
        let mut out: Vec<Glyph> = Vec::new();
        let mut i: usize = 0;
        while i < count
            invariant
                self.wf(),
                color < 8,
                count == self.spec_cells().len(),
                i <= count,
                out@.len() == i,
                forall|j: int|
                    0 <= j < i ==> #[trigger] out@[j] == {
                        let c = self.spec_cells()[j];
                        if c.spec_alive(lifespan) {
                            Glyph {
                                ch: c.content,
                                style: if c.age == 0 {
                                    TextStyle::Bold(color as u8)
                                } else {
                                    TextStyle::Dim(color as u8)
                                },
                            }
                        } else {
                            Glyph { ch: ' ', style: TextStyle::Plain }
                        }
                    },
            decreases count - i,
        {
            let c = self.front[i];
            let g = if c.is_alive(lifespan) {
                Glyph {
                    ch: c.content,
                    style: if c.age == 0 {
                        TextStyle::Bold(color as u8)
                    } else {
                        TextStyle::Dim(color as u8)
                    },
                }
            } else {
                Glyph { ch: ' ', style: TextStyle::Plain }
            };
            out.push(g);
            i = i + 1;
        }
        out
    }
}

} // verus!
