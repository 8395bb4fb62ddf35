use minesweeper::game::Game;
use minesweeper::screen::{screen_position, textbox};

fn text(rows: &[Vec<char>]) -> Vec<String> {
    rows.iter().map(|r| r.iter().collect()).collect()
}

#[test]
fn squares_sit_inside_the_border() {
    assert_eq!(screen_position(0, 0), (2, 2));
    assert_eq!(screen_position(5, 3), (7, 5));
}

#[test]
fn full_board_with_border() {
    let mut g = Game::with_mines(1, 3, 2, &vec![false, false, true, false, false, false]);
    g.toggle_flag(2, 0);
    g.uncover(0, 1);
    assert_eq!(
        text(&g.board_rows()),
        vec!["┌───┐", "│ 1F│", "│ 1?│", "└───┘"]
    );
}

#[test]
fn text_box_centres_lines() {
    let lines: Vec<Vec<char>> = " Game Over! \n\nretry: r\nquit:q"
        .lines()
        .map(|l| l.chars().collect())
        .collect();
    assert_eq!(
        text(&textbox(&lines)),
        vec![
            "┌────────────┐",
            "│ Game Over! │",
            "│            │",
            "│  retry: r  │",
            "│   quit:q   │",
            "└────────────┘",
        ]
    );
    let odd: Vec<Vec<char>> = vec!["abcd".chars().collect(), "a".chars().collect()];
    assert_eq!(text(&textbox(&odd)), vec!["┌────┐", "│abcd│", "│ a  │", "└────┘"]);
}
