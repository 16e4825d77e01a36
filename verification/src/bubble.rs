//! The bar-sort animation: columns of bars chase their target heights
//! one unit per frame, drawn with one of several glyph ramps.

use vstd::prelude::*;

use crate::term::{Glyph, TextStyle};

verus! {

/// Which glyph ramp the bars use.
#[derive(Clone, Copy, Debug, PartialEq, Eq, Structural)]
pub enum RenderStyle {
    Block,
    DotsAsc,
    DotsDesc,
    Fraction,
    Octal,
}

/// The nine-step glyph ramp of a style: index 0 is empty, 8 is full.
pub open spec fn spec_ramp(style: RenderStyle, i: int) -> char {
    match style {
        RenderStyle::Block => {
            if i <= 0 {
                ' '
            } else if i == 1 {
                '\u{2581}'
            } else if i == 2 {
                '\u{2582}'
            } else if i == 3 {
                '\u{2583}'
            } else if i == 4 {
                '\u{2584}'
            } else if i == 5 {
                '\u{2585}'
            } else if i == 6 {
                '\u{2586}'
            } else if i == 7 {
                '\u{2587}'
            } else {
                '\u{2588}'
            }
        },
        RenderStyle::DotsAsc => {
            if i <= 0 {
                ' '
            } else if i == 1 {
                '\u{2880}'
            } else if i == 2 {
                '\u{28c0}'
            } else if i == 3 {
                '\u{28e0}'
            } else if i == 4 {
                '\u{28e4}'
            } else if i == 5 {
                '\u{28f4}'
            } else if i == 6 {
                '\u{28f6}'
            } else if i == 7 {
                '\u{28fe}'
            } else {
                '\u{28ff}'
            }
        },
        RenderStyle::DotsDesc => {
            if i <= 0 {
                ' '
            } else if i == 1 {
                '\u{2840}'
            } else if i == 2 {
                '\u{28c0}'
            } else if i == 3 {
                '\u{28c4}'
            } else if i == 4 {
                '\u{28e4}'
            } else if i == 5 {
                '\u{28e6}'
            } else if i == 6 {
                '\u{28f6}'
            } else if i == 7 {
                '\u{28f7}'
            } else {
                '\u{28ff}'
            }
        },
        RenderStyle::Fraction => {
            if i <= 0 {
                '0'
            } else if i == 1 {
                '\u{215b}'
            } else if i == 2 {
                '\u{bc}'
            } else if i == 3 {
                '\u{215c}'
            } else if i == 4 {
                '\u{bd}'
            } else if i == 5 {
                '\u{215d}'
            } else if i == 6 {
                '\u{be}'
            } else if i == 7 {
                '\u{215e}'
            } else {
                '1'
            }
        },
        RenderStyle::Octal => {
            if i <= 0 {
                '0'
            } else if i == 1 {
                '1'
            } else if i == 2 {
                '2'
            } else if i == 3 {
                '3'
            } else if i == 4 {
                '4'
            } else if i == 5 {
                '5'
            } else if i == 6 {
                '6'
            } else if i == 7 {
                '7'
            } else {
                '8'
            }
        },
    }
}

fn ramp(style: RenderStyle, i: usize) -> (r: char)
    requires
        i <= 8,
    ensures
        r == spec_ramp(style, i as int),
{
    let chars: [char; 9] = match style {
        RenderStyle::Block => [
            ' ',
            '\u{2581}',
            '\u{2582}',
            '\u{2583}',
            '\u{2584}',
            '\u{2585}',
            '\u{2586}',
            '\u{2587}',
            '\u{2588}',
        ],
        RenderStyle::DotsAsc => [
            ' ',
            '\u{2880}',
            '\u{28c0}',
            '\u{28e0}',
            '\u{28e4}',
            '\u{28f4}',
            '\u{28f6}',
            '\u{28fe}',
            '\u{28ff}',
        ],
        RenderStyle::DotsDesc => [
            ' ',
            '\u{2840}',
            '\u{28c0}',
            '\u{28c4}',
            '\u{28e4}',
            '\u{28e6}',
            '\u{28f6}',
            '\u{28f7}',
            '\u{28ff}',
        ],
        RenderStyle::Fraction => [
            '0',
            '\u{215b}',
            '\u{bc}',
            '\u{215c}',
            '\u{bd}',
            '\u{215d}',
            '\u{be}',
            '\u{215e}',
            '1',
        ],
        RenderStyle::Octal => ['0', '1', '2', '3', '4', '5', '6', '7', '8'],
    };
    chars[i]
}

/// The displayed height of a column after one frame: one unit closer to
/// its target.
pub open spec fn spec_step(displayed: int, actual: int) -> int {
    if displayed < actual {
        displayed + 1
    } else if displayed > actual {
        displayed - 1
    } else {
        displayed
    }
}

/// The glyph of the character cell at column value `value` and bar row
/// `row` (counted from the bottom): full below the bar top, the ramp
/// fraction at the top, empty above.
pub open spec fn spec_bar_glyph(style: RenderStyle, value: int, row: int) -> char {
    let frac = value % 8;
    let whole = value / 8;
    if row < whole {
        spec_ramp(style, 8)
    } else if row == whole {
        spec_ramp(style, frac)
    } else {
        spec_ramp(style, 0)
    }
}

/// One animation frame: every displayed column moves one unit toward
/// its target, and the frame shows the moved columns, row-major from the
/// top of the screen, with changed columns in the active color and the
/// rest in the inactive color; cells above a bar are dimmed.  Returns
/// the frame and whether every column had already reached its target.
pub fn render(
    displayed: &mut Vec<usize>,
    actual: &Vec<usize>,
    width: usize,
    height: usize,
    colors: [u8; 2],
    style: RenderStyle,
) -> (r: (Vec<Glyph>, bool))
    requires
        old(displayed)@.len() == width,
        actual@.len() == width,
        width * height <= usize::MAX,
    ensures
        final(displayed)@.len() == width,
        forall|i: int|
            0 <= i < width ==> #[trigger] final(displayed)@[i] == spec_step(
                old(displayed)@[i] as int,
                actual@[i] as int,
            ),
        r.1 == (forall|i: int| 0 <= i < width ==> old(displayed)@[i] == actual@[i]),
        r.0@.len() == width * height,
        forall|x: int, y: int|
            0 <= x < width && 0 <= y < height ==> #[trigger] r.0@[y * width + x] == {
                let value = final(displayed)@[x] as int;
                let row = height - 1 - y;
                let bright = row < value / 8 || (row == value / 8 && value % 8 > 0);
                let changed = old(displayed)@[x] != actual@[x];
                Glyph {
                    ch: spec_bar_glyph(style, value, row),
                    style: if bright {
                        TextStyle::Normal((colors[if changed { 1 as int } else { 0 }] % 8) as u8)
                    } else {
                        TextStyle::Dim((colors[if changed { 1 as int } else { 0 }] % 8) as u8)
                    },
                }
            },
{
    let ghost disp0 = displayed@;
    let mut converged = true;
    let mut changed: Vec<bool> = Vec::new();
    let mut x: usize = 0;
    while x < width
        invariant
            displayed@.len() == width,
            actual@.len() == width,
            x <= width,
            changed@.len() == x,
            forall|i: int| x <= i < width ==> #[trigger] displayed@[i] == disp0[i],
            forall|i: int|
                0 <= i < x ==> #[trigger] displayed@[i] == spec_step(
                    disp0[i] as int,
                    actual@[i] as int,
                ),
            forall|i: int| 0 <= i < x ==> #[trigger] changed@[i] == (disp0[i] != actual@[i]),
            converged == (forall|i: int| 0 <= i < x ==> disp0[i] == actual@[i]),
        decreases width - x,
    {
        let d = displayed[x];
        let a = actual[x];
        if d < a {
            displayed.set(x, d + 1);
            changed.push(true);
            converged = false;
        } else if d > a {
            displayed.set(x, d - 1);
            changed.push(true);
            converged = false;
        } else {
            changed.push(false);
        }
        x = x + 1;
    }
    let mut out: Vec<Glyph> = Vec::new();
    let mut y: usize = 0;
    while y < height
        invariant
            displayed@.len() == width,
            actual@.len() == width,
            changed@.len() == width,
            width * height <= usize::MAX,
            forall|i: int|
                0 <= i < width ==> #[trigger] displayed@[i] == spec_step(
                    disp0[i] as int,
                    actual@[i] as int,
                ),
            forall|i: int| 0 <= i < width ==> #[trigger] changed@[i] == (disp0[i] != actual@[i]),
            y <= height,
            out@.len() == y * width,
            forall|x2: int, y2: int|
                0 <= x2 < width && 0 <= y2 < y ==> #[trigger] out@[y2 * width + x2] == {
                    let value = displayed@[x2] as int;
                    let row = height - 1 - y2;
                    let bright = row < value / 8 || (row == value / 8 && value % 8 > 0);
                    Glyph {
                        ch: spec_bar_glyph(style, value, row),
                        style: if bright {
                            TextStyle::Normal(
                                (colors[if changed@[x2] { 1 as int } else { 0 }] % 8) as u8,
                            )
                        } else {
                            TextStyle::Dim(
                                (colors[if changed@[x2] { 1 as int } else { 0 }] % 8) as u8,
                            )
                        },
                    }
                },
        decreases height - y,
    {
        let mut x2: usize = 0;
        while x2 < width
            invariant
                displayed@.len() == width,
                actual@.len() == width,
                changed@.len() == width,
                width * height <= usize::MAX,
                forall|i: int|
                    0 <= i < width ==> #[trigger] displayed@[i] == spec_step(
                        disp0[i] as int,
                        actual@[i] as int,
                    ),
                forall|i: int|
                    0 <= i < width ==> #[trigger] changed@[i] == (disp0[i] != actual@[i]),
                y < height,
                x2 <= width,
                out@.len() == y * width + x2,
                forall|x3: int, y2: int|
                    0 <= x3 < width && 0 <= y2 < y ==> #[trigger] out@[y2 * width + x3] == {
                        let value = displayed@[x3] as int;
                        let row = height - 1 - y2;
                        let bright = row < value / 8 || (row == value / 8 && value % 8 > 0);
                        Glyph {
                            ch: spec_bar_glyph(style, value, row),
                            style: if bright {
                                TextStyle::Normal(
                                    (colors[if changed@[x3] { 1 as int } else { 0 }] % 8) as u8,
                                )
                            } else {
                                TextStyle::Dim(
                                    (colors[if changed@[x3] { 1 as int } else { 0 }] % 8) as u8,
                                )
                            },
                        }
                    },
                forall|x3: int|
                    0 <= x3 < x2 ==> #[trigger] out@[y * width + x3] == {
                        let value = displayed@[x3] as int;
                        let row = height - 1 - (y as int);
                        let bright = row < value / 8 || (row == value / 8 && value % 8 > 0);
                        Glyph {
                            ch: spec_bar_glyph(style, value, row),
                            style: if bright {
                                TextStyle::Normal(
                                    (colors[if changed@[x3] { 1 as int } else { 0 }] % 8) as u8,
                                )
                            } else {
                                TextStyle::Dim(
                                    (colors[if changed@[x3] { 1 as int } else { 0 }] % 8) as u8,
                                )
                            },
                        }
                    },
            decreases width - x2,
        {
            let value = displayed[x2];
            let row = height - 1 - y;
            let frac = value % 8;
            let whole = value / 8;
            let bright = row < whole || (row == whole && frac > 0);
            let ci = if changed[x2] {
                1
            } else {
                0
            };
            let color = colors[ci] % 8;
            let ch = if row < whole {
                ramp(style, 8)
            } else if row == whole {
                ramp(style, frac)
            } else {
                ramp(style, 0)
            };
            let g = Glyph {
                ch,
                style: if bright {
                    TextStyle::Normal(color)
                } else {
                    TextStyle::Dim(color)
                },
            };
            out.push(g);
            proof {
                assert forall|x3: int, y2: int|
                    0 <= x3 < width && 0 <= y2 < y implies #[trigger] out@[y2 * width + x3] == {
                    let value = displayed@[x3] as int;
                    let row = height - 1 - y2;
                    let bright = row < value / 8 || (row == value / 8 && value % 8 > 0);
                    Glyph {
                        ch: spec_bar_glyph(style, value, row),
                        style: if bright {
                            TextStyle::Normal(
                                (colors[if changed@[x3] { 1 as int } else { 0 }] % 8) as u8,
                            )
                        } else {
                            TextStyle::Dim(
                                (colors[if changed@[x3] { 1 as int } else { 0 }] % 8) as u8,
                            )
                        },
                    }
                } by {
                    assert(y2 * (width as int) + x3 < (y as int) * width) by (nonlinear_arith)
                        requires
                            0 <= x3 < width as int,
                            0 <= y2,
                            y2 < y as int,
                    ;
                }
            }
            x2 = x2 + 1;
        }
        proof {
            assert((y as int + 1) * (width as int) == (y as int) * (width as int) + width as int)
                by (nonlinear_arith);
        }
        y = y + 1;
    }
    proof {
        assert((height as int) * (width as int) == (width as int) * (height as int))
            by (nonlinear_arith);
    }
    (out, converged)
}

} // verus!
