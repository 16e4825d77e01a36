use doodles::borders::BorderStyle;
use doodles::dir::{Direction, Directions};
use doodles::rng::Rand;
use doodles::term::{CommonArgs, TermEvent, WaitResult};

#[test]
fn direction_turns() {
    assert_eq!(Direction::North.opposite(), Direction::South);
    assert_eq!(Direction::East.opposite(), Direction::West);
    assert_eq!(Direction::South.opposite(), Direction::North);
    assert_eq!(Direction::West.opposite(), Direction::East);
    assert_eq!(Direction::North.clockwise(), Direction::East);
    assert_eq!(Direction::West.clockwise(), Direction::North);
    assert_eq!(Direction::North.counterclockwise(), Direction::West);
    assert_eq!(Direction::East.counterclockwise(), Direction::North);
    for d in [
        Direction::North,
        Direction::East,
        Direction::South,
        Direction::West,
    ] {
        assert_eq!(d.opposite().opposite(), d);
        assert_eq!(d.clockwise().counterclockwise(), d);
    }
}

#[test]
fn direction_set_operations() {
    let mut s = Directions::empty();
    assert!(s.is_empty());
    s = s.insert(Direction::North).insert(Direction::East);
    assert!(s.contains(Direction::North));
    assert!(s.contains(Direction::East));
    assert!(!s.contains(Direction::South));
    assert_eq!(s.len(), 2);
    let c = s.complement();
    assert!(!c.contains(Direction::North));
    assert!(c.contains(Direction::South));
    assert!(c.contains(Direction::West));
    let r = s.remove(Direction::North);
    assert!(!r.contains(Direction::North));
    assert!(r.contains(Direction::East));
    assert_eq!(s.union(c).len(), 4);
    assert_eq!(Direction::South.singleton().len(), 1);
    assert_eq!(s.nth(0), Direction::North);
    assert_eq!(s.nth(1), Direction::East);
}

#[test]
fn picks_stay_inside_the_set() {
    let mut rand = Rand::new();
    let s = Directions::empty()
        .insert(Direction::South)
        .insert(Direction::West);
    for _ in 0..100 {
        let d = s.pick(&mut rand).expect("a nonempty set always yields a pick");
        assert!(s.contains(d));
    }
    assert_eq!(Directions::empty().pick(&mut rand), None);
    for _ in 0..100 {
        let _ = Direction::pick(&mut rand);
    }
}

#[test]
fn border_glyphs_follow_the_mask() {
    let ns = Directions::empty()
        .insert(Direction::North)
        .insert(Direction::South);
    let ew = Directions::empty()
        .insert(Direction::East)
        .insert(Direction::West);
    assert_eq!(ns.border(BorderStyle::Single, BorderStyle::Single), '│');
    assert_eq!(ew.border(BorderStyle::Single, BorderStyle::Single), '─');
    assert_eq!(ns.border(BorderStyle::Bold, BorderStyle::Bold), '┃');
    assert_eq!(ns.border(BorderStyle::Double, BorderStyle::Double), '║');
    let ne = Directions::empty()
        .insert(Direction::North)
        .insert(Direction::East);
    assert_eq!(ne.border(BorderStyle::Curved, BorderStyle::Curved), '╰');
    assert_eq!(
        Directions::empty().border(BorderStyle::Single, BorderStyle::Single),
        ' '
    );
    let all = ns.union(ew);
    assert_eq!(all.border(BorderStyle::Single, BorderStyle::Single), '┼');
    // Unpaired style combinations fall back to the plain family.
    assert_eq!(ns.border(BorderStyle::Curved, BorderStyle::Single), '│');
}

#[test]
fn validate_color_accepts_only_small_indices() {
    assert_eq!(doodles::term::validate_color("0"), Ok(0));
    assert_eq!(doodles::term::validate_color("7"), Ok(7));
    assert_eq!(doodles::term::validate_color("+5"), Ok(5));
    assert_eq!(doodles::term::validate_color("007"), Ok(7));
    assert!(doodles::term::validate_color("8").is_err());
    assert!(doodles::term::validate_color("12").is_err());
    assert!(doodles::term::validate_color("").is_err());
    assert!(doodles::term::validate_color("+").is_err());
    assert!(doodles::term::validate_color("abc").is_err());
    assert!(doodles::term::validate_color("-1").is_err());
    assert!(doodles::term::validate_color("3x").is_err());
}

#[test]
fn handle_event_decides_the_frame_loop() {
    let paced = CommonArgs {
        interactive: false,
        wait: 60,
    };
    let interactive = CommonArgs {
        interactive: true,
        wait: 0,
    };
    assert_eq!(
        paced.handle_event(TermEvent::KeyPress { exit_key: false }),
        Some(WaitResult::Exit),
        "any keypress exits a paced run"
    );
    assert_eq!(
        interactive.handle_event(TermEvent::KeyPress { exit_key: false }),
        Some(WaitResult::Continue),
        "a plain keypress steps one frame interactively"
    );
    assert_eq!(
        interactive.handle_event(TermEvent::KeyPress { exit_key: true }),
        Some(WaitResult::Exit)
    );
    assert_eq!(
        paced.handle_event(TermEvent::Resized(80, 24)),
        Some(WaitResult::Resize(80, 24))
    );
    assert_eq!(paced.handle_event(TermEvent::KeyOther), None);
    assert_eq!(interactive.handle_event(TermEvent::Other), None);
}
