//! The terminal renderer of the Game of Life board: colored glyphs
//! whose shape fades as a dead cell ages, with a per-position variant
//! chosen by hashing the cell's coordinates with a stable seed, so the
//! same cell shows the same variant in every frame.

use vstd::prelude::*;

use crate::conway::Board;
use crate::term::{Glyph, TextStyle};

verus! {

/// Which of the eight glyph variants a cell position uses: a fixed mix
/// of the coordinates and the frame seed.
pub open spec fn spec_variant(seed: u64, x: int, y: int) -> int {
    ((x % 65536) * 40503 + (y % 65536) * 20101 + ((seed as int) % 65536) * 10007) % 8
}

/// The glyph for variant `row` at aging step `col`: column 0 is a live
/// cell, later columns fade as the dead cell ages.
#[verifier::opaque]
pub open spec fn spec_cell_glyph(row: int, col: int) -> char {
    if row == 0 {
        if col == 0 {
            '\u{28ff}'
        } else if col == 1 {
            '\u{28f7}'
        } else if col == 2 {
            '\u{28f5}'
        } else if col == 3 {
            '\u{2875}'
        } else if col == 4 {
            '\u{2875}'
        } else if col == 5 {
            '\u{2865}'
        } else if col == 6 {
            '\u{2861}'
        } else if col == 7 {
            '\u{2861}'
        } else if col == 8 {
            '\u{2860}'
        } else if col == 9 {
            '\u{2840}'
        } else if col == 10 {
            '\u{2840}'
        } else {
            '\u{2840}'
        }
    } else if row == 1 {
        if col == 0 {
            '\u{28ff}'
        } else if col == 1 {
            '\u{28df}'
        } else if col == 2 {
            '\u{28cf}'
        } else if col == 3 {
            '\u{284f}'
        } else if col == 4 {
            '\u{284f}'
        } else if col == 5 {
            '\u{2847}'
        } else if col == 6 {
            '\u{2846}'
        } else if col == 7 {
            '\u{2846}'
        } else if col == 8 {
            '\u{2842}'
        } else if col == 9 {
            '\u{2840}'
        } else if col == 10 {
            '\u{2840}'
        } else {
            '\u{2840}'
        }
    } else if row == 2 {
        if col == 0 {
            '\u{28ff}'
        } else if col == 1 {
            '\u{28fd}'
        } else if col == 2 {
            '\u{28ed}'
        } else if col == 3 {
            '\u{28ad}'
        } else if col == 4 {
            '\u{28ad}'
        } else if col == 5 {
            '\u{28a5}'
        } else if col == 6 {
            '\u{28a4}'
        } else if col == 7 {
            '\u{28a4}'
        } else if col == 8 {
            '\u{2884}'
        } else if col == 9 {
            '\u{2804}'
        } else if col == 10 {
            '\u{2804}'
        } else {
            '\u{2804}'
        }
    } else if row == 3 {
        if col == 0 {
            '\u{28ff}'
        } else if col == 1 {
            '\u{28ef}'
        } else if col == 2 {
            '\u{286f}'
        } else if col == 3 {
            '\u{2867}'
        } else if col == 4 {
            '\u{2867}'
        } else if col == 5 {
            '\u{2827}'
        } else if col == 6 {
            '\u{2826}'
        } else if col == 7 {
            '\u{2826}'
        } else if col == 8 {
            '\u{2806}'
        } else if col == 9 {
            '\u{2804}'
        } else if col == 10 {
            '\u{2804}'
        } else {
            '\u{2804}'
        }
    } else if row == 4 {
        if col == 0 {
            '\u{28ff}'
        } else if col == 1 {
            '\u{28fd}'
        } else if col == 2 {
            '\u{28dd}'
        } else if col == 3 {
            '\u{28cd}'
        } else if col == 4 {
            '\u{28cd}'
        } else if col == 5 {
            '\u{288d}'
        } else if col == 6 {
            '\u{280d}'
        } else if col == 7 {
            '\u{280d}'
        } else if col == 8 {
            '\u{2809}'
        } else if col == 9 {
            '\u{2801}'
        } else if col == 10 {
            '\u{2801}'
        } else {
            '\u{2801}'
        }
    } else if row == 5 {
        if col == 0 {
            '\u{28ff}'
        } else if col == 1 {
            '\u{28f7}'
        } else if col == 2 {
            '\u{28d7}'
        } else if col == 3 {
            '\u{28d6}'
        } else if col == 4 {
            '\u{28d6}'
        } else if col == 5 {
            '\u{2856}'
        } else if col == 6 {
            '\u{2854}'
        } else if col == 7 {
            '\u{2854}'
        } else if col == 8 {
            '\u{2844}'
        } else if col == 9 {
            '\u{2804}'
        } else if col == 10 {
            '\u{2804}'
        } else {
            '\u{2804}'
        }
    } else if row == 6 {
        if col == 0 {
            '\u{28ff}'
        } else if col == 1 {
            '\u{28fb}'
        } else if col == 2 {
            '\u{28bb}'
        } else if col == 3 {
            '\u{28ba}'
        } else if col == 4 {
            '\u{28ba}'
        } else if col == 5 {
            '\u{28b2}'
        } else if col == 6 {
            '\u{2832}'
        } else if col == 7 {
            '\u{2832}'
        } else if col == 8 {
            '\u{2822}'
        } else if col == 9 {
            '\u{2802}'
        } else if col == 10 {
            '\u{2802}'
        } else {
            '\u{2802}'
        }
    } else {
        if col == 0 {
            '\u{28ff}'
        } else if col == 1 {
            '\u{28ef}'
        } else if col == 2 {
            '\u{28cf}'
        } else if col == 3 {
            '\u{28cb}'
        } else if col == 4 {
            '\u{28cb}'
        } else if col == 5 {
            '\u{288b}'
        } else if col == 6 {
            '\u{2883}'
        } else if col == 7 {
            '\u{2883}'
        } else if col == 8 {
            '\u{2803}'
        } else if col == 9 {
            '\u{2801}'
        } else if col == 10 {
            '\u{2801}'
        } else {
            '\u{2801}'
        }
    }
}

/// The aging column of a cell: zero while alive, then one step per age
/// up to the last column.
pub open spec fn spec_age_col(alive: bool, age: u32) -> int {
    if alive {
        0
    } else if age as int - 1 < 11 {
        age as int - 1
    } else {
        11
    }
}

/// What one cell of the board shows: empty cells are blank; a live cell
/// is its variant glyph in bold, a dead one the faded glyph of its age
/// in dim, both in the cell's color.
pub open spec fn spec_render_cell(b: Board, seed: u64, x: int, y: int) -> Glyph {
    let c = b.cell_at(x, y);
    match c.color {
        None => Glyph { ch: ' ', style: TextStyle::Plain },
        Some(color) => Glyph {
            ch: spec_cell_glyph(spec_variant(seed, x, y), spec_age_col(c.spec_alive(), c.age)),
            style: if c.spec_alive() {
                TextStyle::Bold((color % 8) as u8)
            } else {
                TextStyle::Dim((color % 8) as u8)
            },
        },
    }
}

fn variant(seed: u64, x: usize, y: usize) -> (r: usize)
    ensures
        r == spec_variant(seed, x as int, y as int),
        r < 8,
{
    let a = (x % 65536) as u64;
    let b = (y % 65536) as u64;
    let s = seed % 65536;
    ((a * 40503 + b * 20101 + s * 10007) % 8) as usize
}

fn cell_glyph(row: usize, col: usize) -> (r: char)
    requires
        row < 8,
        col < 12,
    ensures
        r == spec_cell_glyph(row as int, col as int),
{
    proof {
        reveal(spec_cell_glyph);
    }
    match row {
        0 => match col {
            0 => '\u{28ff}',
            1 => '\u{28f7}',
            2 => '\u{28f5}',
            3 => '\u{2875}',
            4 => '\u{2875}',
            5 => '\u{2865}',
            6 => '\u{2861}',
            7 => '\u{2861}',
            8 => '\u{2860}',
            9 => '\u{2840}',
            10 => '\u{2840}',
            _ => '\u{2840}',
        },
        1 => match col {
            0 => '\u{28ff}',
            1 => '\u{28df}',
            2 => '\u{28cf}',
            3 => '\u{284f}',
            4 => '\u{284f}',
            5 => '\u{2847}',
            6 => '\u{2846}',
            7 => '\u{2846}',
            8 => '\u{2842}',
            9 => '\u{2840}',
            10 => '\u{2840}',
            _ => '\u{2840}',
        },
        2 => match col {
            0 => '\u{28ff}',
            1 => '\u{28fd}',
            2 => '\u{28ed}',
            3 => '\u{28ad}',
            4 => '\u{28ad}',
            5 => '\u{28a5}',
            6 => '\u{28a4}',
            7 => '\u{28a4}',
            8 => '\u{2884}',
            9 => '\u{2804}',
            10 => '\u{2804}',
            _ => '\u{2804}',
        },
        3 => match col {
            0 => '\u{28ff}',
            1 => '\u{28ef}',
            2 => '\u{286f}',
            3 => '\u{2867}',
            4 => '\u{2867}',
            5 => '\u{2827}',
            6 => '\u{2826}',
            7 => '\u{2826}',
            8 => '\u{2806}',
            9 => '\u{2804}',
            10 => '\u{2804}',
            _ => '\u{2804}',
        },
        4 => match col {
            0 => '\u{28ff}',
            1 => '\u{28fd}',
            2 => '\u{28dd}',
            3 => '\u{28cd}',
            4 => '\u{28cd}',
            5 => '\u{288d}',
            6 => '\u{280d}',
            7 => '\u{280d}',
            8 => '\u{2809}',
            9 => '\u{2801}',
            10 => '\u{2801}',
            _ => '\u{2801}',
        },
        5 => match col {
            0 => '\u{28ff}',
            1 => '\u{28f7}',
            2 => '\u{28d7}',
            3 => '\u{28d6}',
            4 => '\u{28d6}',
            5 => '\u{2856}',
            6 => '\u{2854}',
            7 => '\u{2854}',
            8 => '\u{2844}',
            9 => '\u{2804}',
            10 => '\u{2804}',
            _ => '\u{2804}',
        },
        6 => match col {
            0 => '\u{28ff}',
            1 => '\u{28fb}',
            2 => '\u{28bb}',
            3 => '\u{28ba}',
            4 => '\u{28ba}',
            5 => '\u{28b2}',
            6 => '\u{2832}',
            7 => '\u{2832}',
            8 => '\u{2822}',
            9 => '\u{2802}',
            10 => '\u{2802}',
            _ => '\u{2802}',
        },
        _ => match col {
            0 => '\u{28ff}',
            1 => '\u{28ef}',
            2 => '\u{28cf}',
            3 => '\u{28cb}',
            4 => '\u{28cb}',
            5 => '\u{288b}',
            6 => '\u{2883}',
            7 => '\u{2883}',
            8 => '\u{2803}',
            9 => '\u{2801}',
            10 => '\u{2801}',
            _ => '\u{2801}',
        },
    }
}

/// Renders the board into a frame of glyphs, row-major.
pub fn render(board: &Board, seed: u64) -> (r: Vec<Glyph>)
    requires
        board.wf(),
        board.spec_width() >= 1,
        board.spec_height() >= 1,
    ensures
        r@.len() == board.spec_width() * board.spec_height(),
        forall|x: int, y: int|
            0 <= x < board.spec_width() && 0 <= y < board.spec_height()
                ==> #[trigger] r@[y * board.spec_width() + x] == spec_render_cell(
                *board,
                seed,
                x,
                y,
            ),
{
    let (w, h) = board.size();
    let ghost wi = w as int;
    let ghost hi = h as int;
    let mut out: Vec<Glyph> = Vec::new();
    let mut y: usize = 0;
    while y < h
        invariant
            board.wf(),
            wi == board.spec_width(),
            hi == board.spec_height(),
            w == wi,
            h == hi,
            wi >= 1,
            hi >= 1,
            y <= hi,
            out@.len() == y * wi,
            forall|x2: int, y2: int|
                0 <= x2 < wi && 0 <= y2 < y ==> #[trigger] out@[y2 * wi + x2] == spec_render_cell(
                    *board,
                    seed,
                    x2,
                    y2,
                ),
        decreases hi - y,
    {
        let mut x: usize = 0;
        while x < w
            invariant
                board.wf(),
                wi == board.spec_width(),
                hi == board.spec_height(),
                w == wi,
                h == hi,
                wi >= 1,
                hi >= 1,
                y < hi,
                x <= wi,
                out@.len() == y * wi + x,
                forall|x2: int, y2: int|
                    0 <= x2 < wi && 0 <= y2 < y ==> #[trigger] out@[y2 * wi + x2]
                        == spec_render_cell(*board, seed, x2, y2),
                forall|x2: int|
                    0 <= x2 < x ==> #[trigger] out@[y * wi + x2] == spec_render_cell(
                        *board,
                        seed,
                        x2,
                        y as int,
                    ),
            decreases wi - x,
        {
            proof {
                crate::maze::Maze::lemma_grid_index(wi, hi, x as int, y as int);
                crate::conway::Cell::lemma_mod_small(x as int, wi);
                crate::conway::Cell::lemma_mod_small(y as int, hi);
            }
            let c = *board.cell(x, y);
            let g = match c.color {
                None => Glyph { ch: ' ', style: TextStyle::Plain },
                Some(color) => {
                    let col: usize = if c.is_alive() {
                        0
                    } else if c.age >= 1 && c.age - 1 < 11 {
                        (c.age - 1) as usize
                    } else {
                        11
                    };
                    proof {
                        if !c.spec_alive() && c.age == 0 {
                            assert(c.color is None);
                        }
                    }
                    Glyph {
                        ch: cell_glyph(variant(seed, x, y), col),
                        style: if c.is_alive() {
                            TextStyle::Bold((color % 8) as u8)
                        } else {
                            TextStyle::Dim((color % 8) as u8)
                        },
                    }
                },
            };
            out.push(g);
            proof {
                assert forall|x2: int, y2: int|
                    0 <= x2 < wi && 0 <= y2 < y implies #[trigger] out@[y2 * wi + x2]
                    == spec_render_cell(*board, seed, x2, y2) by {
                    assert(y2 * wi + x2 < (y as int) * wi) by (nonlinear_arith)
                        requires
                            0 <= x2 < wi,
                            0 <= y2,
                            y2 < y as int,
                    ;
                }
            }
            x = x + 1;
        }
        proof {
            assert((y as int + 1) * wi == (y as int) * wi + wi) by (nonlinear_arith);
        }
        y = y + 1;
    }
    proof {
        assert(hi * wi == wi * hi) by (nonlinear_arith);
    }
    out
}

} // verus!
