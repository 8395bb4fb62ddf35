use minesweeper::cell::{Cell, CellState, Color};
use minesweeper::game::{Game, Status};
use minesweeper::play::Direction;
use minesweeper::session::{Key, Outcome};
use minesweeper::setup::{cell_from_draw, cells_from_mines, gen_board};

fn board(width: usize, height: usize, mines: &[(usize, usize)]) -> Game {
    let mut m = vec![false; width * height];
    for &(x, y) in mines {
        m[x + y * width] = true;
    }
    Game::with_mines(1, width, height, &m)
}

fn state(g: &Game, x: usize, y: usize) -> CellState {
    g.cells[g.position_index(x, y)].state
}

#[test]
fn glyphs_of_cells() {
    let hidden = Cell { mine: false, state: CellState::Hidden };
    let flagged = Cell { mine: true, state: CellState::Flagged };
    let open = Cell { mine: false, state: CellState::Revealed };
    let boom = Cell { mine: true, state: CellState::Revealed };
    assert_eq!(hidden.as_char(), '?');
    assert_eq!(flagged.as_char(), 'F');
    assert_eq!(open.as_char(), ' ');
    assert_eq!(boom.as_char(), '*');
    assert_eq!(hidden.color(), Color::LightBlue);
    assert_eq!(flagged.color(), Color::Blue);
    assert_eq!(open.color(), Color::Reset);
}

#[test]
fn index_is_row_major() {
    let g = board(4, 3, &[]);
    assert_eq!(g.position_index(0, 0), 0);
    assert_eq!(g.position_index(3, 0), 3);
    assert_eq!(g.position_index(1, 2), 9);
}

#[test]
fn neighbour_counts_at_corner_edge_and_inside() {
    let g = board(4, 4, &[]);
    assert_eq!(g.neighbors(0, 0).len(), 3);
    assert_eq!(g.neighbors(3, 3).len(), 3);
    assert_eq!(g.neighbors(1, 0).len(), 5);
    assert_eq!(g.neighbors(0, 2).len(), 5);
    assert_eq!(g.neighbors(1, 1).len(), 8);
    let mut n = g.neighbors(0, 0);
    n.sort();
    assert_eq!(n, vec![(0, 1), (1, 0), (1, 1)]);
    let single = board(1, 1, &[]);
    assert_eq!(single.neighbors(0, 0).len(), 0);
}

#[test]
fn mine_count_counts_clipped_neighbourhood() {
    let g = board(3, 3, &[(0, 0), (2, 2)]);
    assert_eq!(g.mine_count_around(1, 1), 2);
    assert_eq!(g.mine_count_around(1, 0), 1);
    assert_eq!(g.mine_count_around(2, 0), 0);
    assert_eq!(g.mine_count_around(0, 0), 0);
    let full = board(3, 3, &[(0, 0), (1, 0), (2, 0), (0, 1), (2, 1), (0, 2), (1, 2), (2, 2)]);
    assert_eq!(full.mine_count_around(1, 1), 8);
}

#[test]
fn numbered_square_does_not_cascade() {
    let mut g = board(3, 3, &[(0, 0), (2, 2)]);
    let order = g.uncover(1, 1);
    assert_eq!(order, vec![(1, 1)]);
    assert_eq!(g.glyph_at(1, 1), '2');
    for y in 0..3 {
        for x in 0..3 {
            if (x, y) != (1, 1) {
                assert_eq!(state(&g, x, y), CellState::Hidden);
            }
        }
    }
    assert_eq!(g.status, Status::Playing);
}

#[test]
fn zero_square_cascades_to_its_border() {
    // mine in the bottom right corner of a 4x4 board
    let mut g = board(4, 4, &[(3, 3)]);
    let order = g.uncover(0, 0);
    assert_eq!(order[0], (0, 0));
    assert_eq!(order.len(), 15);
    for y in 0..4 {
        for x in 0..4 {
            let expected = if (x, y) == (3, 3) { CellState::Hidden } else { CellState::Revealed };
            assert_eq!(state(&g, x, y), expected);
        }
    }
    assert_eq!(g.glyph_at(2, 2), '1');
    assert_eq!(g.glyph_at(0, 0), ' ');
    assert_eq!(g.glyph_at(3, 3), '?');
}

#[test]
fn cascade_stops_at_walls_of_numbers_and_skips_flags() {
    // a wall of mines down column 2 of a 5x3 board
    let mut g = board(5, 3, &[(2, 0), (2, 1), (2, 2)]);
    g.toggle_flag(0, 2);
    let order = g.uncover(0, 0);
    assert_eq!(order.len(), 5);
    assert_eq!(state(&g, 0, 2), CellState::Flagged);
    assert_eq!(state(&g, 1, 1), CellState::Revealed);
    for y in 0..3 {
        for x in 2..5 {
            assert_eq!(state(&g, x, y), CellState::Hidden);
        }
    }
}

#[test]
fn second_reveal_is_a_no_op() {
    let mut g = board(3, 3, &[(2, 2)]);
    let first = g.uncover(0, 0);
    assert!(!first.is_empty());
    let cells = g.cells.clone();
    let second = g.uncover(0, 0);
    assert!(second.is_empty());
    assert_eq!(g.cells, cells);
}

#[test]
fn stepping_on_a_mine_loses() {
    let mut g = board(2, 2, &[(1, 1)]);
    let order = g.uncover(1, 1);
    assert!(order.is_empty());
    assert_eq!(g.status, Status::Lost);
    assert_eq!(state(&g, 1, 1), CellState::Hidden);
}

#[test]
fn flag_toggle_is_its_own_inverse() {
    let mut g = board(2, 2, &[(0, 0)]);
    g.toggle_flag(1, 0);
    assert_eq!(state(&g, 1, 0), CellState::Flagged);
    g.toggle_flag(1, 0);
    assert_eq!(state(&g, 1, 0), CellState::Hidden);
    g.uncover(1, 1);
    g.toggle_flag(1, 1);
    assert_eq!(state(&g, 1, 1), CellState::Revealed);
}

#[test]
fn win_needs_every_mine_flagged() {
    let mut g = board(3, 1, &[(0, 0), (2, 0)]);
    assert!(!g.did_win());
    g.toggle_flag(1, 0);
    assert!(!g.did_win());
    g.toggle_flag(0, 0);
    assert!(!g.did_win());
    g.toggle_flag(2, 0);
    assert!(g.did_win());
    g.toggle_flag(1, 0);
    assert!(g.did_win());
}

#[test]
fn board_without_mines_is_won_at_once() {
    let mut g = Game::new(3, 1, 1);
    assert!(!g.cells[0].mine);
    assert!(g.did_win());
    let r = g.handle_key(Key::Reveal);
    assert!(matches!(r, Outcome::Won));
    assert_eq!(g.status, Status::Won);
    assert_eq!(state(&g, 0, 0), CellState::Revealed);
}

#[test]
fn mine_then_restart() {
    // at difficulty 0 a 20x20 board without a mine is practically impossible
    let mut g = board(20, 20, &[(2, 1)]);
    g.difficulty = 0;
    g.handle_key(Key::Move(Direction::Right));
    g.handle_key(Key::Move(Direction::Right));
    g.handle_key(Key::Move(Direction::Down));
    assert_eq!(g.cursor, (2, 1));
    let r = g.handle_key(Key::Reveal);
    assert!(matches!(r, Outcome::Lost));
    assert_eq!(g.status, Status::Lost);
    // the end screen takes restart and quit only
    assert!(matches!(g.handle_key(Key::Flag), Outcome::Ignored));
    assert!(matches!(g.handle_key(Key::Move(Direction::Left)), Outcome::Ignored));
    assert_eq!(g.cursor, (2, 1));
    let r = g.handle_key(Key::Restart);
    assert!(matches!(r, Outcome::Restarted));
    assert_eq!(g.status, Status::Playing);
    assert_eq!(g.cursor, (0, 0));
    assert_eq!((g.width, g.height, g.difficulty), (20, 20, 0));
    assert_eq!(g.cells.len(), 400);
    assert!(g.cells.iter().all(|c| c.state == CellState::Hidden));
}

#[test]
fn restart_onto_a_board_without_mines_wins() {
    let mut g = board(3, 2, &[(1, 1)]);
    g.difficulty = 3;
    g.handle_key(Key::Move(Direction::Down));
    let r = g.handle_key(Key::Restart);
    assert!(matches!(r, Outcome::Won));
    assert_eq!(g.status, Status::Won);
    assert_eq!(g.cursor, (0, 0));
    assert!(g.cells.iter().all(|c| !c.mine && c.state == CellState::Hidden));
}

#[test]
fn any_key_checks_the_win() {
    let mut g = board(2, 2, &[]);
    let r = g.handle_key(Key::Other);
    assert!(matches!(r, Outcome::Won));
    assert_eq!(g.status, Status::Won);
    assert!(matches!(g.handle_key(Key::Other), Outcome::Ignored));
    assert_eq!(g.status, Status::Won);
}

#[test]
fn quit_and_other_keys() {
    let mut g = board(2, 2, &[(0, 0)]);
    assert!(matches!(g.handle_key(Key::Other), Outcome::Ignored));
    assert!(matches!(g.handle_key(Key::Quit), Outcome::Quit));
    assert_eq!(g.status, Status::Playing);
}

#[test]
fn flag_key_then_win() {
    let mut g = board(2, 1, &[(1, 0)]);
    assert!(matches!(g.handle_key(Key::Flag), Outcome::Flagged));
    assert_eq!(g.status, Status::Playing);
    assert!(matches!(g.handle_key(Key::Flag), Outcome::Flagged));
    g.handle_key(Key::Move(Direction::Right));
    assert!(matches!(g.handle_key(Key::Flag), Outcome::Won));
    assert_eq!(g.status, Status::Won);
}

#[test]
fn reveal_key_reports_uncovered_squares() {
    let mut g = board(3, 3, &[(0, 0), (2, 2)]);
    g.handle_key(Key::Move(Direction::Down));
    g.handle_key(Key::Move(Direction::Right));
    match g.handle_key(Key::Reveal) {
        Outcome::Uncovered(order) => assert_eq!(order, vec![(1, 1)]),
        other => panic!("unexpected {:?}", other),
    }
}

#[test]
fn cursor_stays_on_board() {
    let mut g = board(3, 2, &[(0, 0)]);
    for _ in 0..10 {
        g.move_cursor(Direction::Left);
        g.move_cursor(Direction::Up);
    }
    assert_eq!(g.cursor, (0, 0));
    for _ in 0..10 {
        g.move_cursor(Direction::Right);
        g.move_cursor(Direction::Down);
    }
    assert_eq!(g.cursor, (2, 1));
    g.move_cursor(Direction::Left);
    assert_eq!(g.cursor, (1, 1));
}

#[test]
fn draws_become_cells() {
    assert_eq!(cell_from_draw(2), Cell { mine: true, state: CellState::Hidden });
    assert_eq!(cell_from_draw(3), Cell { mine: false, state: CellState::Hidden });
    let cells = cells_from_mines(&vec![true, false]);
    assert_eq!(cells, vec![cell_from_draw(0), cell_from_draw(10)]);
}

#[test]
fn random_boards_have_the_right_shape() {
    let cells = gen_board(1, 7, 5);
    assert_eq!(cells.len(), 35);
    assert!(cells.iter().all(|c| c.state == CellState::Hidden));
    let none = gen_board(3, 20, 20);
    assert!(none.iter().all(|c| !c.mine));
    // with a draw from 0..30 about one square in ten holds a mine
    let some = gen_board(0, 100, 100);
    let mines = some.iter().filter(|c| c.mine).count();
    assert!(mines > 0 && mines < 5000);
    let g = Game::new(2, 4, 3);
    assert_eq!((g.width, g.height, g.cursor, g.status), (4, 3, (0, 0), Status::Playing));
    assert_eq!(g.cells.len(), 12);
}
