use doodles::bubble;
use doodles::conway;
use doodles::digirain;
use doodles::rng::Rand;
use doodles::term::TextStyle;

fn conway_board_with(width: usize, height: usize, live: &[(usize, usize, u32)]) -> conway::Board {
    let board = conway::Board::new(width, height);
    let mut cells = vec![conway::Cell::empty(); width * height];
    for &(x, y, color) in live {
        cells[y * width + x] = conway::Cell::new(color);
    }
    board.with_cells(cells)
}

#[test]
fn conway_cell_states() {
    let alive = conway::Cell::new(3);
    assert!(alive.is_alive());
    assert!(!alive.is_empty());
    let empty = conway::Cell::empty();
    assert!(!empty.is_alive());
    assert!(empty.is_empty());
    let dead = conway::Cell { color: Some(3), age: 2 };
    assert!(!dead.is_alive());
    assert!(!dead.is_empty());
}

#[test]
fn conway_cell_rules() {
    let me = conway::Cell::new(1);
    let friend = conway::Cell::new(1);
    let stranger = conway::Cell::new(2);
    let gap = conway::Cell::empty();
    // Underpopulation: one like neighbor kills.
    let lonely = me.next(&[friend, gap, gap, gap, gap, gap, gap, gap]);
    assert!(!lonely.is_alive());
    assert_eq!(lonely.age, 1);
    assert_eq!(lonely.color, Some(1));
    // Two like neighbors sustain, strangers don't count toward it.
    let steady = me.next(&[friend, friend, stranger, gap, gap, gap, gap, gap]);
    assert!(steady.is_alive());
    // Four like neighbors overcrowd.
    let crowded = me.next(&[friend, friend, friend, friend, gap, gap, gap, gap]);
    assert!(!crowded.is_alive());
    // Birth needs exactly three live neighbors of a single color.
    let born = gap.next(&[friend, friend, friend, gap, gap, gap, gap, gap]);
    assert!(born.is_alive());
    assert_eq!(born.color, Some(1));
    let mixed = gap.next(&[friend, friend, stranger, gap, gap, gap, gap, gap]);
    assert!(!mixed.is_alive());
    // A dead cell ages.
    let older = conway::Cell { color: Some(1), age: 5 }.next(&[gap; 8]);
    assert_eq!(older.age, 6);
    assert_eq!(older.color, Some(1));
}

#[test]
fn conway_blinker_oscillates() {
    let mut board = conway_board_with(5, 5, &[(1, 2, 1), (2, 2, 1), (3, 2, 1)]);
    board.next();
    assert!(board.cell(2, 1).is_alive());
    assert!(board.cell(2, 2).is_alive());
    assert!(board.cell(2, 3).is_alive());
    assert!(!board.cell(1, 2).is_alive());
    assert!(!board.cell(3, 2).is_alive());
    board.next();
    assert!(board.cell(1, 2).is_alive());
    assert!(board.cell(2, 2).is_alive());
    assert!(board.cell(3, 2).is_alive());
    assert_eq!(board.generation(), 2);
}

#[test]
fn conway_converges_on_a_still_life() {
    // A two-by-two block is a still life; after a full history of
    // identical generations the board reports convergence.
    let mut board = conway_board_with(6, 6, &[(1, 1, 4), (2, 1, 4), (1, 2, 4), (2, 2, 4)]);
    assert!(!board.converged());
    for _ in 0..16 {
        board.next();
        assert!(board.cell(1, 1).is_alive());
    }
    assert!(board.converged());
}

#[test]
fn conway_blinker_converges_alternating() {
    let mut board = conway_board_with(5, 5, &[(1, 2, 1), (2, 2, 1), (3, 2, 1)]);
    for _ in 0..16 {
        board.next();
    }
    assert!(board.converged(), "a two-cycle fills the history evenly");
}

#[test]
fn conway_board_accessors() {
    let board = conway::Board::new(4, 3);
    assert_eq!(board.size(), (4, 3));
    assert_eq!(board.generation(), 0);
    assert!(board.cell(0, 0).is_empty());
    assert!(board.cell(7, 5).is_empty(), "coordinates wrap onto the grid");
}

#[test]
fn digirain_board_lifecycle() {
    let alphabet: Vec<char> = "abcdef".chars().collect();
    let board = digirain::Board::new(4, 3, alphabet);
    let cell = board.cell(1, 1);
    assert_eq!(cell.age, u32::MAX);
    assert!(!cell.is_alive(8));
    let head = digirain::Cell::new_head('x', 2);
    assert!(head.is_alive(8));
    assert_eq!(head.content, 'x');
    assert_eq!(head.trail_length, 2);
}

#[test]
fn digirain_resize_keeps_the_overlap() {
    let alphabet: Vec<char> = "ab".chars().collect();
    let board = digirain::Board::new(3, 3, alphabet);
    let grown = board.resize(5, 2);
    assert_eq!(grown.cell(0, 0).age, u32::MAX);
    assert_eq!(grown.cell(4, 1).age, u32::MAX);
}

#[test]
fn digirain_step_and_render() {
    let alphabet: Vec<char> = "ab".chars().collect();
    let board = digirain::Board::new(3, 2, alphabet);
    let mut rand = Rand::new();
    // Spawn exactly one head at index 0.
    let spawns = vec![true, false, false, false, false, false];
    let board = board.next(8, 2, 6, &spawns, &mut rand);
    let head = board.cell(0, 0);
    assert!(head.is_alive(8));
    assert!(head.content == 'a' || head.content == 'b');
    let frame = board.render(8, 2);
    assert_eq!(frame.len(), 6);
    assert_eq!(frame[0].style, TextStyle::Bold(2), "a fresh head renders bold");
    assert_eq!(frame[1].ch, ' ');
    assert_eq!(frame[1].style, TextStyle::Plain);
}

#[test]
fn bubble_bars_approach_their_targets() {
    let mut displayed = vec![0, 5, 9];
    let actual = vec![2, 5, 7];
    let (frame, converged) = bubble::render(
        &mut displayed,
        &actual,
        3,
        2,
        [1, 2],
        bubble::RenderStyle::Octal,
    );
    assert!(!converged);
    assert_eq!(displayed, vec![1, 5, 8]);
    assert_eq!(frame.len(), 6);
    // Column 1 did not change, so it keeps the inactive color.
    // Row 0 of the frame is the top of the screen: bar row 1.
    // Column 1 holds value 5: row 1 is above the bar top (0), row 0 shows
    // the fraction 5.
    assert_eq!(frame[0 * 3 + 1].ch, '0');
    assert_eq!(frame[1 * 3 + 1].ch, '5');
    assert_eq!(frame[1 * 3 + 1].style, TextStyle::Normal(1));
    // Column 0 changed: active color.
    assert_eq!(frame[1 * 3 + 0].ch, '1');
    assert_eq!(frame[1 * 3 + 0].style, TextStyle::Normal(2));
}

#[test]
fn bubble_converges_when_bars_match() {
    let mut displayed = vec![3, 4];
    let actual = vec![3, 4];
    let (_, converged) = bubble::render(
        &mut displayed,
        &actual,
        2,
        1,
        [0, 1],
        bubble::RenderStyle::Block,
    );
    assert!(converged);
    assert_eq!(displayed, vec![3, 4]);
}

#[test]
fn bubble_full_and_empty_cells() {
    let mut displayed = vec![16];
    let actual = vec![16];
    let (frame, _) = bubble::render(
        &mut displayed,
        &actual,
        1,
        3,
        [0, 0],
        bubble::RenderStyle::Block,
    );
    // Value 16 fills two rows exactly: rows 0 and 1 full, row 2 empty.
    // The frame is printed top row first.
    assert_eq!(frame[0].ch, ' ');
    assert_eq!(frame[1].ch, '█');
    assert_eq!(frame[2].ch, '█');
}

#[test]
fn conway_terminal_frames_are_stable() {
    let mut board = conway_board_with(4, 3, &[(1, 1, 2), (2, 1, 9)]);
    let first = doodles::term_renderer::render(&board, 99);
    let second = doodles::term_renderer::render(&board, 99);
    assert_eq!(first.len(), 12);
    for (a, b) in first.iter().zip(second.iter()) {
        assert_eq!(a.ch, b.ch);
        assert_eq!(a.style, b.style);
    }
    assert_eq!(first[0].ch, ' ');
    assert_eq!(first[0].style, TextStyle::Plain);
    assert_eq!(first[1 * 4 + 1].style, TextStyle::Bold(2));
    assert_eq!(
        first[1 * 4 + 2].style,
        TextStyle::Bold(1),
        "colors wrap onto the eight-entry palette"
    );
    // Step the board: both live cells die lonely and render dim; a
    // freshly dead cell keeps its glyph for one frame, then fades.
    board.next();
    let faded = doodles::term_renderer::render(&board, 99);
    assert_eq!(faded[1 * 4 + 1].style, TextStyle::Dim(2));
    assert_eq!(faded[1 * 4 + 1].ch, first[1 * 4 + 1].ch);
    board.next();
    let fainter = doodles::term_renderer::render(&board, 99);
    assert_ne!(fainter[1 * 4 + 1].ch, first[1 * 4 + 1].ch, "aging fades the glyph");
}
