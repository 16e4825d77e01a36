use doodles::dir::Direction;
use doodles::maze::Maze;
use doodles::render::{RenderStyle, WallStyle};
use doodles::rng::Rand;

/// Test-side breadth-first search: how many cells are reachable from
/// `(sx, sy)` through open walls.
fn reachable_count(m: &Maze, sx: usize, sy: usize) -> usize {
    let (w, h) = m.size();
    let mut seen = vec![false; w * h];
    let mut queue = vec![(sx, sy)];
    seen[sy * w + sx] = true;
    let mut count = 0;
    while let Some((x, y)) = queue.pop() {
        count += 1;
        let walls = m.walls(x, y);
        let mut neighbors: Vec<(usize, usize)> = Vec::new();
        if !walls.north && y > 0 {
            neighbors.push((x, y - 1));
        }
        if !walls.south && y + 1 < h {
            neighbors.push((x, y + 1));
        }
        if !walls.west && x > 0 {
            neighbors.push((x - 1, y));
        }
        if !walls.east && x + 1 < w {
            neighbors.push((x + 1, y));
        }
        for (nx, ny) in neighbors {
            if !seen[ny * w + nx] {
                seen[ny * w + nx] = true;
                queue.push((nx, ny));
            }
        }
    }
    count
}

/// Test-side count of absent internal walls.
fn removed_internal_walls(m: &Maze) -> usize {
    let (w, h) = m.size();
    let mut removed = 0;
    for y in 0..h {
        for x in 0..w {
            let walls = m.walls(x, y);
            if x + 1 < w && !walls.east {
                removed += 1;
            }
            if y + 1 < h && !walls.south {
                removed += 1;
            }
        }
    }
    removed
}

#[test]
fn generated_maze_is_spanning_tree() {
    let mut rand = Rand::new();
    for (w, h) in [(1, 1), (1, 5), (4, 1), (5, 4), (7, 7)] {
        let mut m = Maze::new(w, h);
        while m.build_next(&mut rand) {}
        assert_eq!(removed_internal_walls(&m), w * h - 1);
        for y in 0..h {
            for x in 0..w {
                assert_eq!(reachable_count(&m, x, y), w * h);
            }
        }
    }
}

#[test]
fn shared_walls_agree() {
    let mut rand = Rand::new();
    let mut m = Maze::new(6, 5);
    while m.build_next(&mut rand) {}
    for y in 0..5 {
        for x in 0..6 {
            let walls = m.walls(x, y);
            if x + 1 < 6 {
                assert_eq!(walls.east, m.walls(x + 1, y).west);
            }
            if y + 1 < 5 {
                assert_eq!(walls.south, m.walls(x, y + 1).north);
            }
        }
    }
}

#[test]
fn two_by_two_fixed_order() {
    let order = [
        Direction::East,
        Direction::South,
        Direction::West,
        Direction::North,
    ];
    let mut m = Maze::new(2, 2);
    let mut steps = 0;
    while m.build_next_with(order) {
        steps += 1;
        assert!(steps <= 4);
    }
    assert_eq!(steps, 4);
    // A spanning tree of the four cells: three internal walls carved,
    // everything mutually reachable.
    assert_eq!(removed_internal_walls(&m), 3);
    for y in 0..2 {
        for x in 0..2 {
            assert_eq!(reachable_count(&m, x, y), 4);
        }
    }
    // With this fixed direction order the south neighbor of the entrance
    // is explored first and the east neighbor is reached around the far
    // side, so the entrance keeps its east wall: its junction offers
    // exactly the south direction.
    let open = m.walls(0, 0).complement();
    assert!(!open.north);
    assert!(!open.east);
    assert!(open.south);
    assert!(!open.west);
}

#[test]
fn one_by_one_generates_in_one_step() {
    let mut m = Maze::new(1, 1);
    let order = [
        Direction::North,
        Direction::East,
        Direction::South,
        Direction::West,
    ];
    assert!(m.build_next_with(order));
    assert!(!m.build_next_with(order));
    let walls = m.walls(0, 0);
    assert!(walls.north && walls.south && walls.west);
    assert!(!walls.east, "the exit wall is open from the start");
}

#[test]
fn one_by_one_exact_frame() {
    let mut m = Maze::new(1, 1);
    let mut rand = Rand::new();
    while m.build_next(&mut rand) {}
    let style = RenderStyle {
        outer: WallStyle::Solid,
        inner: WallStyle::Solid,
        color: 7,
    };
    let frame = m.render(&style, &[], &doodles::agent::RenderStyle::Smiley, 0);
    let chars: Vec<char> = frame.iter().map(|g| g.ch).collect();
    assert_eq!(
        chars,
        vec!['╶', '─', '╴', ' ', ' ', ' ', '╶', '─', '╴'],
        "a generated 1x1 maze is an open corridor from entrance to exit"
    );
}

#[test]
fn hedge_frames_are_identical_across_renders() {
    let mut rand = Rand::new();
    let mut m = Maze::new(3, 2);
    while m.build_next(&mut rand) {}
    let style = RenderStyle {
        outer: WallStyle::Hedge,
        inner: WallStyle::Hedge,
        color: 2,
    };
    let agent_style = doodles::agent::RenderStyle::Smiley;
    let seed = rand.seed();
    let first = m.render(&style, &[], &agent_style, seed);
    let second = m.render(&style, &[], &agent_style, seed);
    assert_eq!(first.len(), second.len());
    for (a, b) in first.iter().zip(second.iter()) {
        assert_eq!(a.ch, b.ch);
        assert_eq!(a.style, b.style);
    }
}

#[test]
fn pending_cells_are_marked_during_construction() {
    let mut m = Maze::new(2, 1);
    let style = RenderStyle {
        outer: WallStyle::Solid,
        inner: WallStyle::Solid,
        color: 1,
    };
    let agent_style = doodles::agent::RenderStyle::Smiley;
    let frame = m.render(&style, &[], &agent_style, 7);
    // Nothing visited yet: both cell centers show the dim pending marker.
    let (bw, _) = m.bitmap_size();
    assert_eq!(frame[1 * bw + 1].ch, '∎');
    assert_eq!(frame[1 * bw + 3].ch, '∎');
}

#[test]
fn build_next_counts_progress() {
    let mut rand = Rand::new();
    let mut m = Maze::new(3, 3);
    let mut progress = 0;
    while m.build_next(&mut rand) {
        progress += 1;
        assert!(progress <= 9);
    }
    assert_eq!(progress, 9, "every cell is visited exactly once");
}
