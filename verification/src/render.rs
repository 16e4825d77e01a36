//! The maze renderer: wall styles, the textured-glyph hash, and the
//! conversion of the maze bitmap plus active agents into a grid of
//! styled glyphs.  Writing the glyphs to a terminal happens outside the
//! library.

use vstd::prelude::*;

use crate::agent::Agent;
use crate::agent::RenderStyle as AgentRenderStyle;
use crate::borders::{spec_border, BorderStyle};
use crate::dir::Directions;
use crate::maze::Maze;
use crate::term::{Glyph, TextStyle};

verus! {
/// How the maze is drawn: one wall style for the bitmap border, one for
/// the interior, and a color index.
#[derive(Clone, Debug)]
pub struct RenderStyle {
    pub outer: WallStyle,
    pub inner: WallStyle,
    pub color: u8,
}

/// A visual treatment for wall pixels.
#[derive(Clone, Copy, Debug, PartialEq, Eq, Structural)]
pub enum WallStyle {
    Solid,
    Curved,
    Double,
    Bold,
    Block,
    Hedge,
}

impl RenderStyle {
    /// The same wall styles with another color.
    pub fn with_color(self, color: u8) -> (r: RenderStyle)
        ensures
            r.outer == self.outer,
            r.inner == self.inner,
            r.color == color,
    {
        RenderStyle { outer: self.outer, inner: self.inner, color }
    }
}

/// Which textured-wall glyph a pixel gets: a fixed mix of the pixel's
/// coordinates and the frame seed, reduced to an index into the fixed
/// glyph set.  It depends on nothing else, so an unchanged maze renders
/// the same textured glyph at the same pixel in every frame.
pub open spec fn spec_hedge_index(seed: u64, x: int, y: int) -> int {
    ((x % 65536) * 40503 + (y % 65536) * 20101 + ((seed as int) % 65536) * 10007) % 51
}

/// The fixed textured-wall glyph set, indexed by `spec_hedge_index`.
#[verifier::opaque]
pub open spec fn spec_hedge_char(i: int) -> char {
    if i == 0 {
        '\u{285f}'
    } else if i == 1 {
        '\u{286a}'
    } else if i == 2 {
        '\u{286f}'
    } else if i == 3 {
        '\u{2873}'
    } else if i == 4 {
        '\u{2875}'
    } else if i == 5 {
        '\u{2875}'
    } else if i == 6 {
        '\u{2877}'
    } else if i == 7 {
        '\u{2879}'
    } else if i == 8 {
        '\u{287a}'
    } else if i == 9 {
        '\u{287b}'
    } else if i == 10 {
        '\u{287c}'
    } else if i == 11 {
        '\u{287d}'
    } else if i == 12 {
        '\u{287e}'
    } else if i == 13 {
        '\u{287f}'
    } else if i == 14 {
        '\u{288f}'
    } else if i == 15 {
        '\u{2895}'
    } else if i == 16 {
        '\u{2897}'
    } else if i == 17 {
        '\u{289c}'
    } else if i == 18 {
        '\u{289d}'
    } else if i == 19 {
        '\u{289e}'
    } else if i == 20 {
        '\u{289f}'
    } else if i == 21 {
        '\u{28ae}'
    } else if i == 22 {
        '\u{28af}'
    } else if i == 23 {
        '\u{28b7}'
    } else if i == 24 {
        '\u{28bb}'
    } else if i == 25 {
        '\u{28bd}'
    } else if i == 26 {
        '\u{28be}'
    } else if i == 27 {
        '\u{28bf}'
    } else if i == 28 {
        '\u{28ce}'
    } else if i == 29 {
        '\u{28cf}'
    } else if i == 30 {
        '\u{28d5}'
    } else if i == 31 {
        '\u{28d7}'
    } else if i == 32 {
        '\u{28dd}'
    } else if i == 33 {
        '\u{28de}'
    } else if i == 34 {
        '\u{28df}'
    } else if i == 35 {
        '\u{28e3}'
    } else if i == 36 {
        '\u{28e7}'
    } else if i == 37 {
        '\u{28ea}'
    } else if i == 38 {
        '\u{28eb}'
    } else if i == 39 {
        '\u{28ee}'
    } else if i == 40 {
        '\u{28ef}'
    } else if i == 41 {
        '\u{28f3}'
    } else if i == 42 {
        '\u{28f5}'
    } else if i == 43 {
        '\u{28f7}'
    } else if i == 44 {
        '\u{28f9}'
    } else if i == 45 {
        '\u{28fa}'
    } else if i == 46 {
        '\u{28fb}'
    } else if i == 47 {
        '\u{28fc}'
    } else if i == 48 {
        '\u{28fd}'
    } else if i == 49 {
        '\u{28fe}'
    } else {
        '\u{28ff}'
    }
}

/// The textured-wall glyph for pixel `(x, y)` under `seed`.
pub fn hedge_glyph(seed: u64, x: usize, y: usize) -> (r: char)
    ensures
        r == spec_hedge_char(spec_hedge_index(seed, x as int, y as int)),
{
    let a = (x % 65536) as u64;
    let b = (y % 65536) as u64;
    let s = seed % 65536;
    let i = ((a * 40503 + b * 20101 + s * 10007) % 51) as usize;
    proof {
        reveal(spec_hedge_char);
        assert(i as int == spec_hedge_index(seed, x as int, y as int));
    }
    match i {
            0 => '\u{285f}',
            1 => '\u{286a}',
            2 => '\u{286f}',
            3 => '\u{2873}',
            4 => '\u{2875}',
            5 => '\u{2875}',
            6 => '\u{2877}',
            7 => '\u{2879}',
            8 => '\u{287a}',
            9 => '\u{287b}',
            10 => '\u{287c}',
            11 => '\u{287d}',
            12 => '\u{287e}',
            13 => '\u{287f}',
            14 => '\u{288f}',
            15 => '\u{2895}',
            16 => '\u{2897}',
            17 => '\u{289c}',
            18 => '\u{289d}',
            19 => '\u{289e}',
            20 => '\u{289f}',
            21 => '\u{28ae}',
            22 => '\u{28af}',
            23 => '\u{28b7}',
            24 => '\u{28bb}',
            25 => '\u{28bd}',
            26 => '\u{28be}',
            27 => '\u{28bf}',
            28 => '\u{28ce}',
            29 => '\u{28cf}',
            30 => '\u{28d5}',
            31 => '\u{28d7}',
            32 => '\u{28dd}',
            33 => '\u{28de}',
            34 => '\u{28df}',
            35 => '\u{28e3}',
            36 => '\u{28e7}',
            37 => '\u{28ea}',
            38 => '\u{28eb}',
            39 => '\u{28ee}',
            40 => '\u{28ef}',
            41 => '\u{28f3}',
            42 => '\u{28f5}',
            43 => '\u{28f7}',
            44 => '\u{28f9}',
            45 => '\u{28fa}',
            46 => '\u{28fb}',
            47 => '\u{28fc}',
            48 => '\u{28fd}',
            49 => '\u{28fe}',
            _ => '\u{28ff}',
    }
}


/// The line family a wall style maps to when it is not one of the two
/// fill styles.
pub open spec fn spec_wall_border(ws: WallStyle) -> BorderStyle {
    match ws {
        WallStyle::Solid => BorderStyle::Single,
        WallStyle::Curved => BorderStyle::Curved,
        WallStyle::Double => BorderStyle::Double,
        WallStyle::Bold => BorderStyle::Bold,
        _ => BorderStyle::Single,
    }
}

fn wall_border(ws: WallStyle) -> (r: BorderStyle)
    ensures
        r == spec_wall_border(ws),
{
    match ws {
        WallStyle::Solid => BorderStyle::Single,
        WallStyle::Curved => BorderStyle::Curved,
        WallStyle::Double => BorderStyle::Double,
        WallStyle::Bold => BorderStyle::Bold,
        _ => BorderStyle::Single,
    }
}

/// The first agent standing on bitmap pixel `(px, py)`, if any; earlier
/// agents in the slice win, as the draw order has it.
pub open spec fn agent_at(agents: Seq<Agent>, px: int, py: int) -> Option<Agent>
    decreases agents.len(),
{
    if agents.len() <= 0 {
        None
    } else if agents[0].spec_render_position() == (px, py) {
        Some(agents[0])
    } else {
        agent_at(agents.drop_first(), px, py)
    }
}

/// What one bitmap pixel shows: an agent standing there wins; an open
/// pixel is blank, or a dim pending marker on an unvisited cell's
/// center; a wall pixel is a solid block, a textured glyph, or the
/// box-drawing glyph whose arms follow the neighboring wall pixels.
pub open spec fn spec_render_pixel(
    m: Maze,
    style: RenderStyle,
    agents: Seq<Agent>,
    agent_style: AgentRenderStyle,
    seed: u64,
    px: int,
    py: int,
) -> Glyph {
    match agent_at(agents, px, py) {
        Some(a) => a.spec_render(agent_style),
        None => spec_maze_pixel(m, style, seed, px, py),
    }
}

/// What one bitmap pixel shows when no agent stands on it.
pub open spec fn spec_maze_pixel(m: Maze, style: RenderStyle, seed: u64, px: int, py: int) -> Glyph {
    if !m.pixel_on(px, py) {
        if px % 2 == 1 && py % 2 == 1 && !m.visited_at(px / 2, py / 2) {
            Glyph { ch: '\u{220e}', style: TextStyle::Dim(style.color) }
        } else {
            Glyph { ch: ' ', style: TextStyle::Plain }
        }
    } else {
        let dirs = Directions {
            north: py > 0 && m.pixel_on(px, py - 1),
            east: px + 1 < m.bmp_w() && m.pixel_on(px + 1, py),
            south: py + 1 < m.bmp_h() && m.pixel_on(px, py + 1),
            west: px > 0 && m.pixel_on(px - 1, py),
        };
        let x_border = px == 0 || px + 1 == m.bmp_w();
        let y_border = py == 0 || py + 1 == m.bmp_h();
        let border = x_border || y_border;
        if style.outer == WallStyle::Block && border {
            Glyph { ch: '\u{2588}', style: TextStyle::Normal(style.color) }
        } else if style.outer == WallStyle::Hedge && border {
            Glyph {
                ch: spec_hedge_char(spec_hedge_index(seed, px, py)),
                style: TextStyle::Normal(style.color),
            }
        } else if style.inner == WallStyle::Block && !border {
            Glyph { ch: '\u{2588}', style: TextStyle::Normal(style.color) }
        } else if style.inner == WallStyle::Hedge && !border {
            Glyph {
                ch: spec_hedge_char(spec_hedge_index(seed, px, py)),
                style: TextStyle::Normal(style.color),
            }
        } else {
            let hs = spec_wall_border(if x_border { style.outer } else { style.inner });
            let vs = spec_wall_border(if y_border { style.outer } else { style.inner });
            Glyph { ch: spec_border(dirs, hs, vs), style: TextStyle::Normal(style.color) }
        }
    }
}

/// The whole frame, row-major.
pub open spec fn spec_frame(
    m: Maze,
    style: RenderStyle,
    agents: Seq<Agent>,
    agent_style: AgentRenderStyle,
    seed: u64,
) -> Seq<Glyph> {
    Seq::new((m.bmp_w() * m.bmp_h()) as nat, |i: int| spec_render_pixel(
        m,
        style,
        agents,
        agent_style,
        seed,
        i % m.bmp_w(),
        i / m.bmp_w(),
    ))
}

/// A frame depends only on the walls, the styles, the agents and the
/// seed: rendering an unchanged maze twice gives byte-identical glyphs,
/// textured walls included.
pub proof fn lemma_frame_stable(
    a: Maze,
    b: Maze,
    style: RenderStyle,
    agents: Seq<Agent>,
    agent_style: AgentRenderStyle,
    seed: u64,
)
    requires
        a.grid() == b.grid(),
        a.spec_width() == b.spec_width(),
        a.spec_height() == b.spec_height(),
    ensures
        spec_frame(a, style, agents, agent_style, seed) == spec_frame(
            b,
            style,
            agents,
            agent_style,
            seed,
        ),
{
    Maze::lemma_walls_determine_pixels(a, b);
    assert(spec_frame(a, style, agents, agent_style, seed) =~= spec_frame(
        b,
        style,
        agents,
        agent_style,
        seed,
    ));
}

/// The glyph of the first agent on pixel `(px, py)`, if any.
fn overlay(
    agents: &[Agent],
    agent_style: &AgentRenderStyle,
    px: usize,
    py: usize,
    Ghost(w): Ghost<int>,
    Ghost(h): Ghost<int>,
) -> (r: Option<Glyph>)
    requires
        forall|i: int| 0 <= i < agents@.len() ==> (#[trigger] agents@[i]).wf(w, h),
        2 * w + 2 <= usize::MAX,
        2 * h + 2 <= usize::MAX,
    ensures
        r == match agent_at(agents@, px as int, py as int) {
            Some(a) => Some(a.spec_render(*agent_style)),
            None => None::<Glyph>,
        },
{
    proof {
        assert(agents@.skip(0) =~= agents@);
    }
    let mut i: usize = 0;
    while i < agents.len()
        invariant
            i <= agents@.len(),
            forall|j: int| 0 <= j < agents@.len() ==> (#[trigger] agents@[j]).wf(w, h),
            2 * w + 2 <= usize::MAX,
            2 * h + 2 <= usize::MAX,
            agent_at(agents@, px as int, py as int) == agent_at(
                agents@.skip(i as int),
                px as int,
                py as int,
            ),
        decreases agents@.len() - i,
    {
        proof {
            assert(agents@.skip(i as int)[0] == agents@[i as int]);
            assert(agents@.skip(i as int).drop_first() =~= agents@.skip(i as int + 1));
            agents@[i as int].lemma_wf_position(w, h);
        }
        let rp = agents[i].render_position();
        if rp.0 == px && rp.1 == py {
            proof {
                assert(agent_at(agents@.skip(i as int), px as int, py as int) == Some(
                    agents@[i as int],
                ));
            }
            return Some(agents[i].render(agent_style));
        }
        i = i + 1;
    }
    proof {
        assert(agents@.skip(agents@.len() as int).len() == 0);
    }
    None
}

impl Maze {
    /// Renders the maze and the active agents into one frame of styled
    /// glyphs, row-major over the bitmap grid, rebuilding the cached
    /// bitmap first if a wall change invalidated it.
    #[verifier::rlimit(100)]
    pub fn render(
        &mut self,
        style: &RenderStyle,
        agents: &[Agent],
        agent_style: &AgentRenderStyle,
        seed: u64,
    ) -> (r: Vec<Glyph>)
        requires
            old(self).wf(),
            style.color < 8,
            (style.inner == WallStyle::Block || style.inner == WallStyle::Hedge) ==> (style.outer
                == WallStyle::Block || style.outer == WallStyle::Hedge),
            forall|i: int|
                0 <= i < agents@.len() ==> (#[trigger] agents@[i]).wf(
                    old(self).spec_width(),
                    old(self).spec_height(),
                ),
        ensures
            final(self).wf(),
            final(self).grid() == old(self).grid(),
            final(self).frontier() == old(self).frontier(),
            final(self).spec_width() == old(self).spec_width(),
            final(self).spec_height() == old(self).spec_height(),
            r@ == spec_frame(*final(self), *style, agents@, *agent_style, seed),
    {
        proof {
            old(self).lemma_wf_facts();
        }
        self.render_bitmap();
        proof {
            self.lemma_wf_facts();
        }
        let ghost m = *self;
        let ghost w = m.spec_width();
        let ghost h = m.spec_height();
        let (bw, bh) = self.bitmap_size();
        let mut out: Vec<Glyph> = Vec::new();
        let mut py: usize = 0;
        while py < bh
            invariant
                *self == m,
                m.wf(),
                m.cached_bitmap() is Some,
                w == m.spec_width(),
                h == m.spec_height(),
                bw == m.bmp_w(),
                bh == m.bmp_h(),
                style.color < 8,
                (style.inner == WallStyle::Block || style.inner == WallStyle::Hedge) ==> (
                style.outer == WallStyle::Block || style.outer == WallStyle::Hedge),
                forall|i: int| 0 <= i < agents@.len() ==> (#[trigger] agents@[i]).wf(w, h),
                py <= bh,
                out@.len() == py * bw,
                forall|j: int|
                    0 <= j < out@.len() ==> out@[j] == spec_render_pixel(
                        m,
                        *style,
                        agents@,
                        *agent_style,
                        seed,
                        j % m.bmp_w(),
                        j / m.bmp_w(),
                    ),
            decreases bh - py,
        {
            let mut px: usize = 0;
            while px < bw
                invariant
                    *self == m,
                    m.wf(),
                    m.cached_bitmap() is Some,
                    w == m.spec_width(),
                    h == m.spec_height(),
                    bw == m.bmp_w(),
                    bh == m.bmp_h(),
                    style.color < 8,
                    (style.inner == WallStyle::Block || style.inner == WallStyle::Hedge) ==> (
                    style.outer == WallStyle::Block || style.outer == WallStyle::Hedge),
                    forall|i: int| 0 <= i < agents@.len() ==> (#[trigger] agents@[i]).wf(w, h),
                    py < bh,
                    px <= bw,
                    out@.len() == py * bw + px,
                    forall|j: int|
                        0 <= j < out@.len() ==> out@[j] == spec_render_pixel(
                            m,
                            *style,
                            agents@,
                            *agent_style,
                            seed,
                            j % m.bmp_w(),
                            j / m.bmp_w(),
                        ),
                decreases bw - px,
            {
                proof {
                    m.lemma_wf_facts();
                    Maze::lemma_grid_index(bw as int, bh as int, px as int, py as int);
                }
                let g = self.render_pixel(style, agents, agent_style, seed, px, py, Ghost(w),
                    Ghost(h));
                out.push(g);
                px = px + 1;
            }
            proof {
                assert((py as int + 1) * (bw as int) == py as int * bw as int + bw as int)
                    by (nonlinear_arith);
            }
            py = py + 1;
        }
        proof {
            assert((bh as int) * (bw as int) == (bw as int) * (bh as int)) by (nonlinear_arith);
            assert(out@.len() == m.bmp_w() * m.bmp_h());
            assert(out@ =~= spec_frame(m, *style, agents@, *agent_style, seed)) by {
                assert forall|j: int|
                    0 <= j < out@.len() implies out@[j] == spec_frame(
                    m,
                    *style,
                    agents@,
                    *agent_style,
                    seed,
                )[j] by {}
            }
        }
        out
    }

    /// One pixel of the frame.
    #[verifier::rlimit(100)]
    fn render_pixel(
        &self,
        style: &RenderStyle,
        agents: &[Agent],
        agent_style: &AgentRenderStyle,
        seed: u64,
        px: usize,
        py: usize,
        Ghost(w): Ghost<int>,
        Ghost(h): Ghost<int>,
    ) -> (r: Glyph)
        requires
            self.wf(),
            self.cached_bitmap() is Some,
            w == self.spec_width(),
            h == self.spec_height(),
            style.color < 8,
            (style.inner == WallStyle::Block || style.inner == WallStyle::Hedge) ==> (style.outer
                == WallStyle::Block || style.outer == WallStyle::Hedge),
            forall|i: int| 0 <= i < agents@.len() ==> (#[trigger] agents@[i]).wf(w, h),
            (px as int) < self.bmp_w(),
            (py as int) < self.bmp_h(),
        ensures
            r == spec_render_pixel(*self, *style, agents@, *agent_style, seed, px as int, py as int),
    {
        proof {
            self.lemma_wf_facts();
            Maze::lemma_bitmap_bound(w, h);
        }
        let (bw, bh) = self.bitmap_size();
        if let Some(g) = overlay(agents, agent_style, px, py, Ghost(w), Ghost(h)) {
            return g;
        }
        if !self.bitmap_bit(px, py) {
            proof {
                assert(px as int == 2 * ((px as int) / 2) + ((px as int) % 2));
                assert(py as int == 2 * ((py as int) / 2) + ((py as int) % 2));
            }
            if px % 2 == 1 && py % 2 == 1 && !self.visited(px / 2, py / 2) {
                Glyph { ch: '\u{220e}', style: TextStyle::Dim(style.color) }
            } else {
                Glyph { ch: ' ', style: TextStyle::Plain }
            }
        } else {
            let dirs = Directions {
                north: py > 0 && self.bitmap_bit(px, py - 1),
                east: px + 1 < bw && self.bitmap_bit(px + 1, py),
                south: py + 1 < bh && self.bitmap_bit(px, py + 1),
                west: px > 0 && self.bitmap_bit(px - 1, py),
            };
            let x_border = px == 0 || px + 1 == bw;
            let y_border = py == 0 || py + 1 == bh;
            let border = x_border || y_border;
            if matches!(style.outer, WallStyle::Block) && border {
                Glyph { ch: '\u{2588}', style: TextStyle::Normal(style.color) }
            } else if matches!(style.outer, WallStyle::Hedge) && border {
                Glyph { ch: hedge_glyph(seed, px, py), style: TextStyle::Normal(style.color) }
            } else if matches!(style.inner, WallStyle::Block) && !border {
                Glyph { ch: '\u{2588}', style: TextStyle::Normal(style.color) }
            } else if matches!(style.inner, WallStyle::Hedge) && !border {
                Glyph { ch: hedge_glyph(seed, px, py), style: TextStyle::Normal(style.color) }
            } else {
                let hs = wall_border(if x_border {
                    style.outer
                } else {
                    style.inner
                });
                let vs = wall_border(if y_border {
                    style.outer
                } else {
                    style.inner
                });
                Glyph {
                    ch: dirs.border(hs, vs),
                    style: TextStyle::Normal(style.color),
                }
            }
        }
    }
}

} // verus!
