use tile_merge::board::Board;
use tile_merge::grid::{DOWN, LEFT, RIGHT, UP};

fn occupied(b: &Board) -> usize {
    b.board.iter().filter(|v| **v != 0).count()
}

#[test]
fn test_move_up() {
    let board_start = [0, 4, 0, 2, 0, 0, 4, 2, 2, 4, 2, 2, 2, 2, 8, 2];
    let board_end = [4, 8, 4, 4, 0, 2, 2, 4, 0, 0, 8, 0, 0, 0, 0, 0];

    let mut game = Board::new(0);
    game.board = board_start;

    let moved = game.move_up();

    assert!(game.board == board_end);
    assert!(moved);
}

#[test]
fn test_no_move_up() {
    let board_end = [4, 8, 4, 4, 0, 2, 2, 0, 0, 0, 8, 0, 0, 0, 0, 0];

    let mut game = Board::new(0);
    game.board = board_end;

    let moved = game.move_up();

    assert!(game.board == board_end);
    assert!(!moved);
}

#[test]
fn test_move_left() {
    let board_start = [2, 2, 2, 2, 2, 0, 4, 2, 0, 4, 8, 2, 0, 4, 0, 2];
    let board_end = [4, 4, 0, 0, 2, 4, 2, 0, 4, 8, 2, 0, 4, 2, 0, 0];

    let mut game = Board::new(0);
    game.board = board_start;

    let moved = game.move_left();

    assert!(game.board == board_end);
    assert!(moved);
}

#[test]
fn test_no_move_left() {
    let board_end = [4, 0, 0, 0, 2, 4, 2, 0, 4, 8, 2, 0, 4, 2, 0, 0];

    let mut game = Board::new(0);
    game.board = board_end;

    let moved = game.move_left();

    assert!(game.board == board_end);
    assert!(!moved);
}

#[test]
fn test_move_down() {
    let board_start = [2, 2, 4, 2, 2, 0, 4, 2, 0, 4, 8, 2, 0, 4, 0, 2];
    let board_end = [0, 0, 0, 0, 0, 0, 0, 0, 0, 2, 8, 4, 4, 8, 8, 4];

    let mut game = Board::new(0);
    game.board = board_start;

    let moved = game.move_down();

    assert!(game.board == board_end);
    assert!(moved);
}

#[test]
fn test_no_move_down() {
    let board_end = [0, 0, 0, 0, 0, 0, 0, 0, 0, 2, 0, 0, 4, 8, 8, 4];

    let mut game = Board::new(0);
    game.board = board_end;

    let moved = game.move_down();

    assert!(game.board == board_end);
    assert!(!moved);
}

#[test]
fn test_move_right() {
    let board_start = [2, 2, 2, 2, 2, 0, 4, 2, 2, 4, 8, 0, 2, 2, 4, 0];
    let board_end = [0, 0, 4, 4, 0, 2, 4, 2, 0, 2, 4, 8, 0, 0, 4, 4];

    let mut game = Board::new(0);
    game.board = board_start;

    let moved = game.move_right();

    assert!(game.board == board_end);
    assert!(moved);
}

#[test]
fn test_no_move_right() {
    let board_end = [0, 0, 0, 4, 0, 0, 8, 2, 2, 4, 2, 4, 0, 0, 4, 8];

    let mut game = Board::new(0);
    game.board = board_end;

    let moved = game.move_right();

    assert!(game.board == board_end);
    assert!(!moved);
}

#[test]
fn new_spawns_two_tiles_from_seed_zero() {
    let game = Board::new(0);
    let mut expected = [0; 16];
    expected[0] = 2;
    expected[4] = 2;
    assert_eq!(game.board, expected);
    assert_eq!(game.score, 0);
    assert_eq!(game.seed, 0);
}

#[test]
fn new_spawns_in_column_major_order() {
    let game = Board::new(32);
    let mut expected = [0; 16];
    expected[0] = 2;
    expected[5] = 2;
    assert_eq!(game.board, expected);
    assert_eq!(game.seed, 1048576);
}

#[test]
fn spawn_value_follows_bit_four_of_seed() {
    let game = Board::new(17);
    let mut expected = [0; 16];
    expected[4] = 4;
    expected[5] = 2;
    assert_eq!(game.board, expected);
    assert_eq!(game.seed, 83521);
}

#[test]
fn generator_wraps_on_largest_seed() {
    let game = Board::new(u64::MAX);
    let mut expected = [0; 16];
    expected[15] = 4;
    expected[4] = 2;
    assert_eq!(game.board, expected);
    assert_eq!(game.seed, 1);
}

#[test]
fn generator_reduces_modulo() {
    let mut game = Board::new(0);
    game.board = [0; 16];
    game.seed = 10_000_000;
    game.add_random_tile();
    assert_eq!(game.seed, (10_000_000u64 * 10_000_000u64) % 50515093);
    assert_eq!(occupied(&game), 1);
}

#[test]
fn add_random_tile_on_full_board_does_nothing() {
    let full = [2, 4, 2, 4, 4, 2, 4, 2, 2, 4, 2, 4, 4, 2, 4, 2];
    let mut game = Board::new(5);
    game.board = full;
    let seed = game.seed;
    game.add_random_tile();
    assert_eq!(game.board, full);
    assert_eq!(game.seed, seed);
}

#[test]
fn restart_resets_everything() {
    let mut game = Board::new(3);
    game.board = [2, 2, 2, 2, 0, 0, 0, 0, 0, 0, 0, 0, 0, 0, 0, 0];
    game.score = 100;
    game.restart(17);
    let fresh = Board::new(17);
    assert_eq!(game.board, fresh.board);
    assert_eq!(game.score, 0);
    assert_eq!(game.seed, fresh.seed);
}

#[test]
fn copy_is_independent() {
    let mut game = Board::new(9);
    game.score = 12;
    let mut other = game.copy();
    assert_eq!(other.board, game.board);
    assert_eq!(other.score, 12);
    assert_eq!(other.seed, game.seed);
    other.board[3] = 64;
    assert_ne!(other.board, game.board);
}

#[test]
fn no_op_moves_change_nothing_in_any_direction() {
    let grids = [
        (UP, [4, 8, 4, 4, 0, 2, 2, 0, 0, 0, 8, 0, 0, 0, 0, 0]),
        (LEFT, [4, 0, 0, 0, 2, 4, 2, 0, 4, 8, 2, 0, 4, 2, 0, 0]),
        (DOWN, [0, 0, 0, 0, 0, 0, 0, 0, 0, 2, 0, 0, 4, 8, 8, 4]),
        (RIGHT, [0, 0, 0, 4, 0, 0, 8, 2, 2, 4, 2, 4, 0, 0, 4, 8]),
    ];
    for (dir, grid) in grids {
        let mut game = Board::new(7);
        game.board = grid;
        game.score = 10;
        let seed = game.seed;
        assert!(!game.apply_action(dir));
        assert_eq!(game.board, grid);
        assert_eq!(game.score, 10);
        assert_eq!(game.seed, seed);
    }
}

#[test]
fn unknown_action_is_a_no_op() {
    for action in [0u8, 5, 200] {
        let mut game = Board::new(11);
        let before = game.copy();
        assert!(!game.apply_action(action));
        assert_eq!(game.board, before.board);
        assert_eq!(game.score, before.score);
        assert_eq!(game.seed, before.seed);
    }
}

#[test]
fn successful_move_spawns_exactly_one_tile() {
    let mut game = Board::new(0);
    game.board = [0, 0, 0, 2, 0, 0, 0, 0, 0, 0, 0, 4, 0, 0, 0, 0];
    game.seed = 0;
    assert!(game.apply_action(LEFT));
    assert_eq!(occupied(&game), 3);
    // the slid grid holds 2 at index 0 and 4 at index 8; empties in
    // column-major order start with 4, and seed 0 picks the first of them
    let mut expected = [0; 16];
    expected[0] = 2;
    expected[8] = 4;
    expected[4] = 2;
    assert_eq!(game.board, expected);
}

#[test]
fn merge_adds_new_value_to_score() {
    let mut game = Board::new(0);
    game.board = [2, 2, 4, 4, 8, 0, 8, 0, 0, 0, 0, 0, 0, 0, 0, 0];
    game.score = 5;
    assert!(game.move_left());
    assert_eq!(game.board, [4, 8, 0, 0, 16, 0, 0, 0, 0, 0, 0, 0, 0, 0, 0, 0]);
    assert_eq!(game.score, 5 + 4 + 8 + 16);
}

#[test]
fn slide_without_merge_keeps_score() {
    let mut game = Board::new(0);
    game.board = [0, 2, 0, 4, 0, 0, 0, 0, 0, 0, 0, 0, 0, 0, 0, 0];
    game.score = 5;
    assert!(game.move_left());
    assert_eq!(game.score, 5);
}

#[test]
fn merged_tile_does_not_merge_again() {
    let mut game = Board::new(0);
    game.board = [2, 2, 4, 0, 0, 0, 0, 0, 0, 0, 0, 0, 0, 0, 0, 0];
    assert!(game.move_left());
    assert_eq!(game.board[0..4], [4, 4, 0, 0]);
    assert_eq!(game.score, 4);
}

#[test]
fn game_over_on_locked_grid() {
    let mut game = Board::new(0);
    game.board = [2, 4, 2, 4, 4, 2, 4, 2, 2, 4, 2, 4, 4, 2, 4, 2];
    assert!(game.is_game_over());
}

#[test]
fn game_not_over_when_one_direction_moves() {
    let mut game = Board::new(0);
    // full grid, only the last column can merge vertically
    game.board = [2, 4, 2, 8, 4, 2, 4, 8, 2, 4, 2, 4, 4, 2, 4, 2];
    let before = game.copy();
    assert!(!game.is_game_over());
    assert_eq!(game.board, before.board);
    assert_eq!(game.score, before.score);
    assert_eq!(game.seed, before.seed);
    let mut probe = game.copy();
    assert!(!probe.move_left());
    let mut probe = game.copy();
    assert!(!probe.move_right());
    let mut probe = game.copy();
    assert!(probe.move_up());
}

#[test]
fn same_seed_same_actions_replay_identically() {
    let mut a = Board::new(12345);
    let mut b = Board::new(12345);
    let actions = [UP, LEFT, LEFT, DOWN, RIGHT, 9, UP, DOWN, RIGHT, LEFT, UP, UP];
    for act in actions {
        let ma = a.apply_action(act);
        let mb = b.apply_action(act);
        assert_eq!(ma, mb);
        assert_eq!(a.board, b.board);
        assert_eq!(a.score, b.score);
        assert_eq!(a.seed, b.seed);
    }
}

#[test]
fn render_shows_score_seed_and_rows() {
    let game = Board::new(0);
    assert_eq!(
        game.render(),
        "Score: 0\nSeed: 0\n 2  0  0  0 \n 2  0  0  0 \n 0  0  0  0 \n 0  0  0  0 \n"
    );
}

#[test]
fn render_keeps_wide_and_negative_values() {
    let mut game = Board::new(0);
    game.board = [1024, 16, 2, -4, 0, 0, 0, 0, 0, 0, 0, 0, 0, 0, 0, 128];
    game.score = 4096;
    game.seed = 50515092;
    assert_eq!(
        game.render(),
        "Score: 4096\nSeed: 50515092\n1024 16  2 -4 \n 0  0  0  0 \n 0  0  0  0 \n 0  0  0 128 \n"
    );
}

#[test]
fn fresh_games_hold_two_tiles() {
    for seed in [0u64, 1, 17, 32, 999, 50515092, u64::MAX] {
        assert_eq!(occupied(&Board::new(seed)), 2);
        let mut game = Board::new(3);
        game.restart(seed);
        assert_eq!(occupied(&game), 2);
    }
}

#[test]
fn long_game_keeps_tiles_and_score_monotone() {
    let mut game = Board::new(2024);
    let actions = [UP, LEFT, DOWN, RIGHT, LEFT, LEFT, UP, RIGHT, DOWN, DOWN];
    let mut last_score = game.score;
    for step in 0..400 {
        let act = actions[step % actions.len()];
        let before = game.copy();
        let moved = game.apply_action(act);
        assert!(game.score >= last_score);
        last_score = game.score;
        for v in game.board {
            assert!(v == 0 || (v >= 2 && (v & (v - 1)) == 0));
        }
        if moved {
            assert!(occupied(&game) >= 1);
        } else {
            assert_eq!(game.board, before.board);
            assert_eq!(game.seed, before.seed);
        }
        if game.is_game_over() {
            for d in [UP, LEFT, DOWN, RIGHT] {
                let mut probe = game.copy();
                assert!(!probe.apply_action(d));
            }
            break;
        }
    }
}
