//! Tests of the slide/merge engine: single lines, whole boards, moves.

use dois_mil::game::{board_mass, Game};
use dois_mil::grid::{slide_grid, Direction};
use dois_mil::rng::SeededRandom;
use dois_mil::slide::slide_merge_line;

#[test]
fn three_equal_tiles_merge_once() {
    let (line, gained, moved) = slide_merge_line(&vec![2, 2, 2, 0]);
    assert_eq!(line, vec![4, 2, 0, 0]);
    assert_eq!(gained, 4);
    assert!(moved);
}

#[test]
fn four_equal_tiles_merge_pairwise() {
    let (line, gained, moved) = slide_merge_line(&vec![2, 2, 2, 2]);
    assert_eq!(line, vec![4, 4, 0, 0]);
    assert_eq!(gained, 8);
    assert!(moved);
}

#[test]
fn merge_marks_block_further_merging() {
    let (line, gained, _) = slide_merge_line(&vec![4, 2, 2, 0]);
    assert_eq!(line, vec![4, 4, 0, 0]);
    assert_eq!(gained, 4);
    let (line, gained, _) = slide_merge_line(&vec![2, 0, 2, 4]);
    assert_eq!(line, vec![4, 4, 0, 0]);
    assert_eq!(gained, 4);
}

#[test]
fn slide_without_merge_gains_nothing() {
    let (line, gained, moved) = slide_merge_line(&vec![2, 0, 4, 8]);
    assert_eq!(line, vec![2, 4, 8, 0]);
    assert_eq!(gained, 0);
    assert!(moved);
    let before: u32 = [2u32, 0, 4, 8].iter().sum();
    let after: u32 = line.iter().sum();
    assert_eq!(before, after);
}

#[test]
fn empty_line_is_unchanged() {
    let (line, gained, moved) = slide_merge_line(&vec![0, 0, 0, 0]);
    assert_eq!(line, vec![0, 0, 0, 0]);
    assert_eq!(gained, 0);
    assert!(!moved);
}

#[test]
fn mass_is_conserved_in_every_direction() {
    let cells = vec![2, 2, 4, 0, 0, 4, 4, 8, 2, 0, 2, 2, 16, 16, 0, 4];
    for dir in [Direction::Up, Direction::Down, Direction::Left, Direction::Right] {
        let mut grid = cells.clone();
        let before = board_mass(&grid).unwrap();
        let (gained, moved) = slide_grid(&mut grid, 4, dir);
        let after = board_mass(&grid).unwrap();
        assert_eq!(before, after);
        assert!(moved);
        assert!(gained > 0);
    }
}

#[test]
fn slide_up_merges_columns_toward_top() {
    let mut grid = vec![
        2, 0, 0, 0,
        2, 0, 0, 0,
        4, 0, 0, 0,
        0, 0, 0, 0,
    ];
    let (gained, moved) = slide_grid(&mut grid, 4, Direction::Up);
    assert_eq!(grid, vec![
        4, 0, 0, 0,
        4, 0, 0, 0,
        0, 0, 0, 0,
        0, 0, 0, 0,
    ]);
    assert_eq!(gained, 4);
    assert!(moved);
}

#[test]
fn slide_right_packs_rows_toward_right() {
    let mut grid = vec![2, 2, 4, 0, 0, 0, 0, 8, 0, 0, 0, 0, 2, 4, 2, 4];
    let (gained, moved) = slide_grid(&mut grid, 4, Direction::Right);
    assert_eq!(grid, vec![0, 0, 4, 4, 0, 0, 0, 8, 0, 0, 0, 0, 2, 4, 2, 4]);
    assert_eq!(gained, 4);
    assert!(moved);
}

#[test]
fn slide_down_moves_tiles_to_bottom() {
    let mut grid = vec![2, 0, 0, 0, 0, 0, 0, 0, 0, 0, 0, 0, 2, 0, 0, 0];
    let (gained, moved) = slide_grid(&mut grid, 4, Direction::Down);
    assert_eq!(grid, vec![0, 0, 0, 0, 0, 0, 0, 0, 0, 0, 0, 0, 4, 0, 0, 0]);
    assert_eq!(gained, 4);
    assert!(moved);
}

#[test]
fn blocked_slide_changes_nothing() {
    let mut grid = vec![2, 4, 8, 16];
    let (gained, moved) = slide_grid(&mut grid, 2, Direction::Left);
    assert_eq!(grid, vec![2, 4, 8, 16]);
    assert_eq!(gained, 0);
    assert!(!moved);
}

#[test]
fn unmoved_move_keeps_game_identical() {
    let mut game = Game::from_grid(2, vec![2, 4, 8, 16]).unwrap();
    let mut rng = SeededRandom::new(7);
    let grid_before = game.grid.clone();
    let score_before = game.score;
    let moved = game.move_left(&mut rng);
    assert!(!moved);
    assert_eq!(game.grid, grid_before);
    assert_eq!(game.score, score_before);
}

#[test]
fn merging_move_adds_merge_points_to_score() {
    let mut game = Game::from_grid(2, vec![2, 2, 8, 16]).unwrap();
    let mut rng = SeededRandom::new(7);
    let moved = game.move_left(&mut rng);
    assert!(moved);
    assert_eq!(game.score, 4);
    assert_eq!(game.grid[0], 4);
}

#[test]
fn seeded_game_regression() {
    let mut game = Game::new(4);
    let mut rng = SeededRandom::new(3);
    game.fill_random_cells(&mut rng);
    assert_eq!(game.grid, vec![0, 0, 0, 2, 0, 0, 0, 0, 0, 0, 0, 0, 0, 0, 2, 0]);
    assert!(game.move_up(&mut rng));
    assert!(game.move_left(&mut rng));
    assert!(game.move_down(&mut rng));
    assert_eq!(game.grid, vec![0, 2, 0, 0, 2, 0, 0, 0, 4, 0, 0, 0, 4, 0, 2, 0]);
    assert_eq!(game.score, 8);
}
