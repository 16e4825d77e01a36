//! The solver agent: a depth-first walk over a built maze, one step per
//! tick.
//!
//! The agent keeps a stack of junctions (the unexplored directions of
//! each cell on its current trail) and a closed grid of cells it has
//! left.  Each tick either draws an untried direction, retreats one
//! junction, moves one cell, or halts — by stepping off the grid through
//! the exit opening, or with the search exhausted.  A measure over the
//! closed grid, the junction stack and the state strictly falls on every
//! tick that does not halt, so every agent halts in finitely many ticks.

use vstd::prelude::*;

use crate::dir::{Direction, Directions};
use crate::maze::Maze;
use crate::rng::Rand;
use crate::term::{Glyph, TextStyle};

verus! {

/// What the agent is doing this tick.
#[derive(Clone, Copy, Debug, PartialEq, Eq, Structural)]
pub enum State {
    Thinking,
    Moving(Direction),
    Halted,
}

/// One cell on the agent's trail: the directions not yet tried from it,
/// and the direction back to the cell it was entered from (`None` at the
/// start cell).
#[derive(Clone, Copy, Debug)]
pub struct Junction {
    pub open: Directions,
    pub from: Option<Direction>,
}

/// How an agent is drawn.
#[derive(Clone, Copy, Debug, PartialEq, Eq, Structural)]
pub enum RenderStyle {
    Smiley,
    Inchworm,
    Turtle,
}

pub struct Agent {
    position: (usize, usize),
    state: State,
    color: u8,
    path: Vec<Junction>,
    /// One flag per maze cell: whether this agent has left it behind.
    closed: Vec<bool>,
    dir: Direction,
}

impl Agent {
    pub closed spec fn spec_position(self) -> (int, int) {
        (self.position.0 as int, self.position.1 as int)
    }

    pub closed spec fn spec_state(self) -> State {
        self.state
    }

    pub closed spec fn spec_dir(self) -> Direction {
        self.dir
    }

    pub closed spec fn spec_path(self) -> Seq<Junction> {
        self.path@
    }

    pub closed spec fn spec_closed(self) -> Seq<bool> {
        self.closed@
    }

    /// Whether this agent has closed cell `(x, y)` of a `w`-wide grid.
    pub closed spec fn closed_at(self, w: int, x: int, y: int) -> bool {
        self.closed@[y * w + x]
    }

    /// How many of the first `n` closed flags are set.
    pub closed spec fn count_closed(s: Seq<bool>, n: int) -> int
        decreases n,
    {
        if n <= 0 {
            0
        } else {
            Self::count_closed(s, n - 1) + if s[n - 1] {
                1 as int
            } else {
                0
            }
        }
    }

    /// The weight of the junction stack: each junction costs two per
    /// untried direction, plus two.
    pub closed spec fn phi(p: Seq<Junction>) -> int
        decreases p.len(),
    {
        if p.len() <= 0 {
            0
        } else {
            Self::phi(p.drop_last()) + 2 * p.last().open.count() + 2
        }
    }

    /// The agent's well-formedness against a `w` by `h` maze: it stands
    /// on the grid and its closed flags cover the grid exactly.
    pub closed spec fn wf(self, w: int, h: int) -> bool {
        &&& 0 <= self.position.0 < w
        &&& 0 <= self.position.1 < h
        &&& self.closed@.len() == w * h
    }

    /// The termination measure: every tick of a non-halted agent either
    /// halts it or strictly lowers this quantity, which stays at least
    /// zero.
    pub closed spec fn measure(self, w: int, h: int) -> int {
        12 * (w * h - Self::count_closed(self.closed@, self.closed@.len() as int)) + Self::phi(
            self.path@,
        ) + (match self.state {
            State::Moving(_) => 1 as int,
            _ => 0,
        }) + (if self.closed@[self.position.1 * w + self.position.0] {
            9 as int
        } else {
            0
        })
    }

    proof fn lemma_count_closed_bounds(s: Seq<bool>, n: int)
        requires
            0 <= n <= s.len(),
        ensures
            0 <= Self::count_closed(s, n) <= n,
        decreases n,
    {
        if n > 0 {
            Self::lemma_count_closed_bounds(s, n - 1);
        }
    }

    proof fn lemma_count_closed_update(s: Seq<bool>, j: int, b: bool, n: int)
        requires
            0 <= j < s.len(),
            0 <= n <= s.len(),
        ensures
            Self::count_closed(s.update(j, b), n) == Self::count_closed(s, n) + (if j < n {
                (if b {
                    1 as int
                } else {
                    0
                }) - (if s[j] {
                    1 as int
                } else {
                    0
                })
            } else {
                0
            }),
        decreases n,
    {
        if n > 0 {
            Self::lemma_count_closed_update(s, j, b, n - 1);
        }
    }

    /// The measure of a well-formed agent is never negative.
    pub proof fn lemma_measure_nonneg(self, w: int, h: int)
        requires
            self.wf(w, h),
        ensures
            self.measure(w, h) >= 0,
    {
        Self::lemma_count_closed_bounds(self.closed@, self.closed@.len() as int);
        Self::lemma_phi_nonneg(self.path@);
    }

    proof fn lemma_phi_nonneg(p: Seq<Junction>)
        ensures
            Self::phi(p) >= 0,
        decreases p.len(),
    {
        if p.len() > 0 {
            Self::lemma_phi_nonneg(p.drop_last());
        }
    }

    proof fn lemma_phi_update_last(p: Seq<Junction>, j: Junction)
        requires
            p.len() >= 1,
        ensures
            Self::phi(p.update(p.len() - 1, j)) == Self::phi(p) - 2 * p.last().open.count() + 2
                * j.open.count(),
    {
        let p2 = p.update(p.len() - 1, j);
        assert(p2.drop_last() =~= p.drop_last());
        assert(p2.last() == j);
    }

    /// A well-formed agent stands on the grid.
    pub proof fn lemma_wf_position(self, w: int, h: int)
        requires
            self.wf(w, h),
        ensures
            0 <= self.spec_position().0 < w,
            0 <= self.spec_position().1 < h,
    {
    }

    /// A fresh agent at the entrance: thinking, with one junction holding
    /// every unwalled direction of the entrance cell, and only the
    /// entrance closed.
    pub fn new(maze: &Maze, color: u8) -> (r: Agent)
        requires
            maze.wf(),
        ensures
            r.wf(maze.spec_width(), maze.spec_height()),
            r.spec_position() == (0 as int, 0 as int),
            r.spec_state() == State::Thinking,
            r.spec_dir() == Direction::East,
            r.spec_path().len() == 1,
            r.spec_path()[0].open == maze.spec_walls(0, 0).spec_complement(),
            r.spec_path()[0].from is None,
            forall|x: int, y: int|
                0 <= x < maze.spec_width() && 0 <= y < maze.spec_height() ==> (r.closed_at(
                    maze.spec_width(),
                    x,
                    y,
                ) <==> (x == 0 && y == 0)),
    {
        let (w, h) = maze.size();
        proof {
            maze.lemma_wf_facts();
            Maze::lemma_grid_bound(maze.spec_width(), maze.spec_height());
        }
        let count = w * h;
        let mut closed: Vec<bool> = Vec::new();
        let mut i: usize = 0;
        while i < count
            invariant
                i <= count,
                closed@.len() == i,
                forall|j: int| 0 <= j < i ==> !(#[trigger] closed@[j]),
            decreases count - i,
        {
            closed.push(false);
            i = i + 1;
        }
        closed.set(0, true);
        let open0 = maze.walls(0, 0).complement();
        let mut path: Vec<Junction> = Vec::new();
        path.push(Junction { open: open0, from: None });
        let r = Agent {
            position: (0, 0),
            state: State::Thinking,
            color,
            path,
            closed,
            dir: Direction::East,
        };
        proof {
            assert forall|x: int, y: int|
                0 <= x < maze.spec_width() && 0 <= y < maze.spec_height() implies (r.closed_at(
                maze.spec_width(),
                x,
                y,
            ) <==> (x == 0 && y == 0)) by {
                Maze::lemma_grid_index(maze.spec_width(), maze.spec_height(), x, y);
            }
        }
        r
    }

    pub fn is_halted(&self) -> (r: bool)
        ensures
            r == (self.spec_state() is Halted),
    {
        matches!(self.state, State::Halted)
    }

    /// Where the agent is drawn on the bitmap: its cell's center pixel,
    /// shifted one pixel toward the destination while moving, and one
    /// pixel east once halted, so it visibly leaves the frame.
    pub closed spec fn spec_render_position(self) -> (int, int) {
        let bx = 2 * (self.position.0 as int) + 1;
        let by = 2 * (self.position.1 as int) + 1;
        match self.state {
            State::Moving(d) => Maze::step_of(bx, by, d),
            State::Halted => (bx + 1, by),
            State::Thinking => (bx, by),
        }
    }

    pub fn render_position(&self) -> (r: (usize, usize))
        requires
            2 * (self.spec_position().0) + 2 <= usize::MAX,
            2 * (self.spec_position().1) + 2 <= usize::MAX,
        ensures
            r.0 == self.spec_render_position().0,
            r.1 == self.spec_render_position().1,
    {
        let x = 2 * self.position.0 + 1;
        let y = 2 * self.position.1 + 1;
        match self.state {
            State::Moving(d) => {
                match d {
                    Direction::North => (x, y - 1),
                    Direction::East => (x + 1, y),
                    Direction::South => (x, y + 1),
                    Direction::West => (x - 1, y),
                }
            },
            State::Halted => (x + 1, y),
            State::Thinking => (x, y),
        }
    }

    /// The glyph this agent is drawn with: fixed for the smiley style,
    /// by travel axis for the inchworm, by facing for the turtle; always
    /// bold in the agent's color.
    pub closed spec fn spec_render(self, style: RenderStyle) -> Glyph {
        let ch = match style {
            RenderStyle::Smiley => '\u{263b}',
            RenderStyle::Inchworm => match self.state {
                State::Moving(Direction::North) | State::Moving(Direction::South) => '\u{2503}',
                State::Moving(Direction::East) | State::Moving(Direction::West) => '\u{2501}',
                _ => '\u{2022}',
            },
            RenderStyle::Turtle => match self.dir {
                Direction::North => '\u{25b2}',
                Direction::East => '\u{25ba}',
                Direction::South => '\u{25bc}',
                Direction::West => '\u{25c4}',
            },
        };
        Glyph { ch, style: TextStyle::Bold((self.color % 8) as u8) }
    }

    pub fn render(&self, style: &RenderStyle) -> (r: Glyph)
        ensures
            r == self.spec_render(*style),
    {
        let ch = match style {
            RenderStyle::Smiley => '\u{263b}',
            RenderStyle::Inchworm => match self.state {
                State::Moving(Direction::North) | State::Moving(Direction::South) => '\u{2503}',
                State::Moving(Direction::East) | State::Moving(Direction::West) => '\u{2501}',
                _ => '\u{2022}',
            },
            RenderStyle::Turtle => match self.dir {
                Direction::North => '\u{25b2}',
                Direction::East => '\u{25ba}',
                Direction::South => '\u{25bc}',
                Direction::West => '\u{25c4}',
            },
        };
        Glyph { ch, style: TextStyle::Bold(self.color % 8) }
    }

    /// One tick of the state machine, with the random draw fixed by
    /// `pick`: thinking draws an untried direction (or retreats, or
    /// halts); moving closes the current cell and advances one cell,
    /// halting when the step leaves the grid; halted agents never change.
    /// Every tick from a non-halted state either halts the agent or
    /// strictly lowers its measure, and no tick leaves the agent thinking
    /// at a junction it has already exhausted.
    pub fn update_with(&mut self, maze: &Maze, pick: usize)
        requires
            maze.wf(),
            old(self).wf(maze.spec_width(), maze.spec_height()),
        ensures
            final(self).wf(maze.spec_width(), maze.spec_height()),
            final(self).spec_color() == old(self).spec_color(),
            old(self).spec_state() is Halted ==> *final(self) == *old(self),
            !(old(self).spec_state() is Halted) ==> (final(self).spec_state() is Halted
                || final(self).measure(maze.spec_width(), maze.spec_height()) < old(self).measure(
                maze.spec_width(),
                maze.spec_height(),
            )),
            old(self).spec_state() is Thinking ==> !(final(self).spec_state() is Thinking),
            Self::tick_rel(*old(self), *final(self), *maze, pick as int),
    {
        let ghost pre = *old(self);
        let ghost w = maze.spec_width();
        let ghost h = maze.spec_height();
        let (mw, mh) = maze.size();
        match self.state {
            State::Thinking => {
                if self.path.len() == 0 {
                    self.state = State::Halted;
                } else {
                    let lastidx = self.path.len() - 1;
                    let top = self.path[lastidx];
                    let n = top.open.len();
                    if n > 0 {
                        let choice = top.open.nth(pick % n);
                        self.state = State::Moving(choice);
                        self.dir = choice;
                        let mut j = self.path[lastidx];
                        j.open = j.open.remove(choice);
                        self.path.set(lastidx, j);
                        proof {
                            Self::lemma_phi_update_last(pre.path@, j);
                        }
                    } else if let Some(from) = top.from {
                        self.state = State::Moving(from);
                        self.path.pop();
                        proof {
                            assert(pre.path@.drop_last() =~= self.path@);
                        }
                    } else {
                        self.state = State::Halted;
                    }
                }
            },
            State::Moving(d) => {
                let (px, py) = self.position;
                proof {
                    maze.lemma_wf_facts();
                    Maze::lemma_grid_bound(w, h);
                    Maze::lemma_grid_index(w, h, px as int, py as int);
                }
                let ci = py * mw + px;
                let ghost closed0 = self.closed@;
                let was_closed = self.closed[ci];
                if !was_closed {
                    self.closed.set(ci, true);
                }
                proof {
                    if !was_closed {
                        Self::lemma_count_closed_update(closed0, ci as int, true,
                            closed0.len() as int);
                    } else {
                        assert(self.closed@ =~= closed0.update(ci as int, true));
                        Self::lemma_count_closed_update(closed0, ci as int, true,
                            closed0.len() as int);
                    }
                }
                let nopt: Option<(usize, usize)> = match d {
                    Direction::North => if py > 0 {
                        Some((px, py - 1))
                    } else {
                        None
                    },
                    Direction::East => if px + 1 < mw {
                        Some((px + 1, py))
                    } else {
                        None
                    },
                    Direction::South => if py + 1 < mh {
                        Some((px, py + 1))
                    } else {
                        None
                    },
                    Direction::West => if px > 0 {
                        Some((px - 1, py))
                    } else {
                        None
                    },
                };
                match nopt {
                    None => {
                        self.state = State::Halted;
                    },
                    Some((nx, ny)) => {
                        self.position = (nx, ny);
                        proof {
                            Maze::lemma_grid_index(w, h, nx as int, ny as int);
                        }
                        let ni = ny * mw + nx;
                        if !self.closed[ni] {
                            let from = d.opposite();
                            let open1 = maze.walls(nx, ny).complement().remove(from);
                            self.path.push(Junction { open: open1, from: Some(from) });
                            proof {
                                assert(self.path@.drop_last() =~= pre.path@);
                            }
                        }
                        self.dir = d;
                        self.state = State::Thinking;
                    },
                }
            },
            State::Halted => {},
        }
    }

    pub closed spec fn spec_color(self) -> u8 {
        self.color
    }

    /// The exact transition relation of one tick: what `update_with`
    /// leaves in the agent for each state, junction stack and step
    /// outcome.
    pub closed spec fn tick_rel(pre: Agent, post: Agent, maze: Maze, pick: int) -> bool {
        let w = maze.spec_width();
        let h = maze.spec_height();
        match pre.state {
            State::Halted => post == pre,
            State::Thinking => {
                if pre.path@.len() == 0 {
                    post == Agent { state: State::Halted, ..pre }
                } else {
                    let top = pre.path@.last();
                    if top.open.count() > 0 {
                        let choice = top.open.spec_nth(pick % top.open.count());
                        post == Agent {
                            state: State::Moving(choice),
                            dir: choice,
                            path: post.path,
                            ..pre
                        } && post.path@ == pre.path@.update(
                            pre.path@.len() - 1,
                            Junction { open: top.open.spec_remove(choice), from: top.from },
                        )
                    } else if top.from is Some {
                        post == Agent {
                            state: State::Moving(top.from->0),
                            path: post.path,
                            ..pre
                        } && post.path@ == pre.path@.drop_last()
                    } else {
                        post == Agent { state: State::Halted, ..pre }
                    }
                }
            },
            State::Moving(d) => {
                let ci = (pre.position.1 as int) * w + (pre.position.0 as int);
                let closed1 = pre.closed@.update(ci, true);
                let st = Maze::step_of(pre.position.0 as int, pre.position.1 as int, d);
                if !(0 <= st.0 < w && 0 <= st.1 < h) {
                    post == Agent { state: State::Halted, closed: post.closed, ..pre }
                        && post.closed@ == closed1
                } else {
                    let ni = st.1 * w + st.0;
                    let entered = closed1[ni];
                    post.state == State::Thinking && post.dir == d && post.position.0 == st.0
                        && post.position.1 == st.1 && post.closed@ == closed1 && post.color
                        == pre.color && (if entered {
                        post.path@ == pre.path@
                    } else {
                        post.path@ == pre.path@.push(
                            Junction {
                                open: maze.spec_walls(st.0, st.1).spec_complement().spec_remove(
                                    d.spec_opposite(),
                                ),
                                from: Some(d.spec_opposite()),
                            },
                        )
                    })
                }
            },
        }
    }

    /// One randomized tick: any untried direction is drawn uniformly from
    /// the junction on top of the stack.
    pub fn update(&mut self, maze: &Maze, rand: &mut Rand)
        requires
            maze.wf(),
            old(self).wf(maze.spec_width(), maze.spec_height()),
        ensures
            final(self).wf(maze.spec_width(), maze.spec_height()),
            old(self).spec_state() is Halted ==> *final(self) == *old(self),
            !(old(self).spec_state() is Halted) ==> (final(self).spec_state() is Halted
                || final(self).measure(maze.spec_width(), maze.spec_height()) < old(self).measure(
                maze.spec_width(),
                maze.spec_height(),
            )),
            old(self).spec_state() is Thinking ==> !(final(self).spec_state() is Thinking),
            exists|pick: int| Self::tick_rel(*old(self), *final(self), *maze, pick),
    {
        let pick = if matches!(self.state, State::Thinking) && self.path.len() > 0 {
            let top = self.path[self.path.len() - 1];
            let n = top.open.len();
            if n > 0 {
                rand.below(n)
            } else {
                0
            }
        } else {
            0
        };
        self.update_with(maze, pick);
    }
}

} // verus!
