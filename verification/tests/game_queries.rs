//! Tests of the game queries, the spawn policy, and argument parsing.

use dois_mil::game::{Game, EventOutcome, InputEvent, parse_grid_size};
use dois_mil::rng::{RandomSource, SeededRandom, ThreadRandom};

#[test]
fn blocked_board_has_no_moves() {
    let game = Game::from_grid(2, vec![2, 4, 4, 2]).unwrap();
    assert!(!game.has_moves());
}

#[test]
fn empty_cell_allows_a_move() {
    let game = Game::from_grid(2, vec![2, 4, 4, 0]).unwrap();
    assert!(game.has_moves());
}

#[test]
fn adjacent_equal_tiles_allow_a_move() {
    let game = Game::from_grid(2, vec![2, 2, 4, 8]).unwrap();
    assert!(game.has_moves());
    let game = Game::from_grid(2, vec![2, 4, 8, 16]).unwrap();
    assert!(!game.has_moves());
    let game = Game::from_grid(2, vec![2, 4, 8, 4]).unwrap();
    assert!(game.has_moves());
}

#[test]
fn fresh_board_is_empty_and_playable() {
    let game = Game::new(4);
    assert_eq!(game.grid, vec![0; 16]);
    assert_eq!(game.score, 0);
    assert!(game.has_moves());
    assert!(!game.has_won());
}

#[test]
fn win_needs_a_tile_of_the_threshold() {
    let game = Game::from_grid(2, vec![1024, 1024, 2, 4]).unwrap();
    assert!(!game.has_won());
    let game = Game::from_grid(2, vec![2048, 2, 4, 8]).unwrap();
    assert!(game.has_won());
    let game = Game::from_grid(2, vec![4096, 2, 4, 8]).unwrap();
    assert!(game.has_won());
}

#[test]
fn any_reports_a_matching_cell() {
    let game = Game::from_grid(2, vec![2, 4, 8, 0]).unwrap();
    assert!(game.any(|v| v == 0));
    assert!(game.any(|v| v >= 8));
    assert!(!game.any(|v| v >= 2048));
}

#[test]
fn spawn_is_a_no_op_on_a_full_board() {
    let cells = vec![2, 4, 8, 16];
    let mut game = Game::from_grid(2, cells.clone()).unwrap();
    let mut rng = ThreadRandom::new();
    game.fill_random_cells(&mut rng);
    assert_eq!(game.grid, cells);
}

#[test]
fn spawn_never_overwrites_a_tile() {
    let cells = vec![2, 4, 8, 0];
    let mut game = Game::from_grid(2, cells.clone()).unwrap();
    let mut rng = ThreadRandom::new();
    game.fill_random_cells(&mut rng);
    assert_eq!(&game.grid[0..3], &cells[0..3]);
    assert!(game.grid[3] == 2 || game.grid[3] == 4);
}

#[test]
fn spawn_places_one_or_two_small_tiles() {
    for seed in 0..32u64 {
        let mut game = Game::new(4);
        let mut rng = SeededRandom::new(seed);
        game.fill_random_cells(&mut rng);
        let tiles: Vec<u32> = game.grid.iter().copied().filter(|v| *v != 0).collect();
        assert!(tiles.len() == 1 || tiles.len() == 2);
        assert!(tiles.iter().all(|v| *v == 2 || *v == 4));
        assert_eq!(game.score, 0);
    }
}

#[test]
fn seeded_source_is_reproducible() {
    let mut a = SeededRandom::new(99);
    let mut b = SeededRandom::new(99);
    for _ in 0..16 {
        assert_eq!(a.pick_index(7), b.pick_index(7));
        assert_eq!(a.pick_weighted(2, 1), b.pick_weighted(2, 1));
        assert_eq!(a.pick_bool(), b.pick_bool());
    }
}

#[test]
fn thread_source_respects_its_ranges() {
    let mut rng = ThreadRandom::new();
    for _ in 0..64 {
        assert!(rng.pick_index(5) < 5);
        assert!(rng.pick_weighted(2, 1) < 2);
        let _ = rng.pick_bool();
    }
}

#[test]
fn quit_event_stops_without_change() {
    let mut game = Game::from_grid(2, vec![2, 4, 4, 0]).unwrap();
    let grid = game.grid.clone();
    let mut rng = SeededRandom::new(1);
    assert_eq!(game.apply_event(InputEvent::Quit, &mut rng), EventOutcome::Quit);
    assert_eq!(game.grid, grid);
}

#[test]
fn unknown_event_is_ignored() {
    let mut game = Game::from_grid(2, vec![2, 4, 4, 0]).unwrap();
    let grid = game.grid.clone();
    let mut rng = SeededRandom::new(1);
    assert_eq!(game.apply_event(InputEvent::Other, &mut rng), EventOutcome::Ignored);
    assert_eq!(game.grid, grid);
}

#[test]
fn direction_event_is_ignored_when_no_move_is_possible() {
    let mut game = Game::from_grid(2, vec![2, 4, 4, 2]).unwrap();
    let mut rng = SeededRandom::new(1);
    assert_eq!(game.apply_event(InputEvent::Left, &mut rng), EventOutcome::Ignored);
    assert_eq!(game.grid, vec![2, 4, 4, 2]);
}

#[test]
fn direction_event_moves_when_possible() {
    let mut game = Game::from_grid(2, vec![2, 2, 8, 16]).unwrap();
    let mut rng = SeededRandom::new(1);
    assert_eq!(game.apply_event(InputEvent::Left, &mut rng), EventOutcome::Moved(true));
    assert_eq!(game.grid[0], 4);
    assert_eq!(game.score, 4);
}

#[test]
fn from_grid_rejects_illegal_boards() {
    assert!(Game::from_grid(2, vec![2, 4, 3, 8]).is_none());
    assert!(Game::from_grid(2, vec![2, 4, 1, 8]).is_none());
    assert!(Game::from_grid(2, vec![2, 4, 8]).is_none());
    assert!(Game::from_grid(1, vec![2]).is_none());
    assert!(Game::from_grid(2, vec![2147483648, 2147483648, 2, 0]).is_none());
    assert!(Game::from_grid(2, vec![2, 4, 8, 0]).is_some());
}

#[test]
fn from_grid_accepts_large_powers_of_two() {
    let game = Game::from_grid(2, vec![2147483648, 4, 8, 0]).unwrap();
    assert!(game.has_won());
}

#[test]
fn parse_grid_size_accepts_playable_sizes() {
    assert_eq!(parse_grid_size(&b"4".to_vec()), Some(4));
    assert_eq!(parse_grid_size(&b"2".to_vec()), Some(2));
    assert_eq!(parse_grid_size(&b"16".to_vec()), Some(16));
    assert_eq!(parse_grid_size(&b"46340".to_vec()), Some(46340));
}

#[test]
fn parse_grid_size_rejects_everything_else() {
    assert_eq!(parse_grid_size(&b"".to_vec()), None);
    assert_eq!(parse_grid_size(&b"0".to_vec()), None);
    assert_eq!(parse_grid_size(&b"1".to_vec()), None);
    assert_eq!(parse_grid_size(&b"46341".to_vec()), None);
    assert_eq!(parse_grid_size(&b"99999999999999999999".to_vec()), None);
    assert_eq!(parse_grid_size(&b"four".to_vec()), None);
    assert_eq!(parse_grid_size(&b"4x4".to_vec()), None);
    assert_eq!(parse_grid_size(&b"-4".to_vec()), None);
    assert_eq!(parse_grid_size(&b" 4".to_vec()), None);
}
