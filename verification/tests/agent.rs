use doodles::agent::{Agent, RenderStyle};
use doodles::maze::Maze;
use doodles::rng::Rand;
use doodles::term::TextStyle;

#[test]
fn one_by_one_agent_exits_through_the_boundary() {
    let mut m = Maze::new(1, 1);
    let mut rand = Rand::new();
    while m.build_next(&mut rand) {}
    let mut a = Agent::new(&m, 3);
    assert!(!a.is_halted());
    assert_eq!(a.render_position(), (1, 1));
    // Thinking: the only open direction is east, through the exit.
    a.update_with(&m, 0);
    assert!(!a.is_halted());
    assert_eq!(a.render_position(), (2, 1), "moving east across the wall pixel");
    // Moving east steps off the grid: the agent halts at the exit.
    a.update_with(&m, 0);
    assert!(a.is_halted());
    assert_eq!(a.render_position(), (2, 1), "halted agents sit one pixel past their cell");
}

#[test]
fn agent_halts_in_finite_steps_on_any_generated_maze() {
    let mut rand = Rand::new();
    for (w, h) in [(1, 1), (3, 2), (5, 5), (2, 7)] {
        let mut m = Maze::new(w, h);
        while m.build_next(&mut rand) {}
        let mut a = Agent::new(&m, 1);
        let mut steps = 0;
        // The verified measure bounds the walk; a generous cap suffices
        // to observe termination here.
        let cap = 100 * w * h + 100;
        while !a.is_halted() {
            a.update(&m, &mut rand);
            steps += 1;
            assert!(steps <= cap, "agent did not halt within its measure bound");
        }
        // On a maze with a reachable exit the agent must have stepped
        // off the grid, which leaves its render position outside the
        // bitmap interior.
        let (bw, _) = m.bitmap_size();
        let (rx, _) = a.render_position();
        assert_eq!(rx, bw - 1, "the agent left through the east exit");
    }
}

#[test]
fn render_styles_pick_the_documented_glyphs() {
    let mut m = Maze::new(2, 2);
    let mut rand = Rand::new();
    while m.build_next(&mut rand) {}
    let a = Agent::new(&m, 2);
    assert_eq!(a.render(&RenderStyle::Smiley).ch, '☻');
    let turtle = a.render(&RenderStyle::Turtle);
    assert_eq!(turtle.ch, '►', "a fresh agent faces east");
    assert_eq!(turtle.style, TextStyle::Bold(2));
    let worm = a.render(&RenderStyle::Inchworm);
    assert_eq!(worm.ch, '•', "a thinking inchworm is a dot");
}

#[test]
fn agent_color_wraps_to_the_palette() {
    let mut m = Maze::new(1, 1);
    let mut rand = Rand::new();
    while m.build_next(&mut rand) {}
    let a = Agent::new(&m, 11);
    assert_eq!(a.render(&RenderStyle::Smiley).style, TextStyle::Bold(3));
}
